//! Sequences of half-open index ranges `[start, end)`, as the free list keeps them.
//!
//! Everything here is specification: what it means for a sequence of ranges to be
//! coalesced, which indices it holds, and what taking the lowest index, giving one
//! index back, or appending a range at the end does to it.

use vstd::prelude::*;

verus! {

/// Every range is non-empty, and each one ends strictly before any later one
/// begins: the ranges ascend, are disjoint, and no two of them touch.
pub open spec fn coalesced(s: Seq<(usize, usize)>) -> bool {
    &&& forall|i: int| 0 <= i < s.len() ==> (#[trigger] s[i]).0 < s[i].1
    &&& forall|i: int, j: int| 0 <= i < j < s.len() ==> (#[trigger] s[i]).1 < (#[trigger] s[j]).0
}

/// Some range of `s` contains the index `x`.
pub open spec fn holds(s: Seq<(usize, usize)>, x: int) -> bool {
    exists|i: int| 0 <= i < s.len() && (#[trigger] s[i]).0 <= x < s[i].1
}

/// The set of indices that the ranges of `s` contain.
pub open spec fn indices(s: Seq<(usize, usize)>) -> Set<int> {
    Set::new(|x: int| holds(s, x))
}

/// Every range of `s` begins at `lo` or later.
pub open spec fn starts_from(s: Seq<(usize, usize)>, lo: int) -> bool {
    forall|i: int| 0 <= i < s.len() ==> lo <= (#[trigger] s[i]).0
}

/// The single range that holds the indices `start .. start + size`, or nothing when
/// `size` is zero.
pub open spec fn span(start: usize, size: usize) -> Seq<(usize, usize)> {
    if size == 0 {
        Seq::empty()
    } else {
        seq![(start, (start + size) as usize)]
    }
}

/// What is left of a non-empty `s` once its lowest index is taken: the first range
/// loses its first index, and disappears if that was its only one.
pub open spec fn take_lowest(s: Seq<(usize, usize)>) -> Seq<(usize, usize)>
    recommends
        s.len() > 0,
{
    if s[0].0 + 1 == s[0].1 {
        s.drop_first()
    } else {
        s.update(0, ((s[0].0 + 1) as usize, s[0].1))
    }
}

/// `s` with the index `x` given back. A range that `x` touches grows by it, two
/// ranges that `x` joins become one, and only an `x` that touches nothing gets a
/// range of its own. An `x` that `s` already holds changes nothing.
pub open spec fn insert_index(s: Seq<(usize, usize)>, x: usize) -> Seq<(usize, usize)>
    recommends
        x < usize::MAX,
    decreases s.len(),
{
    if s.len() == 0 {
        seq![(x, (x + 1) as usize)]
    } else if x + 1 < s[0].0 {
        seq![(x, (x + 1) as usize)] + s
    } else if x + 1 == s[0].0 {
        s.update(0, (x, s[0].1))
    } else if x < s[0].1 {
        s
    } else if x == s[0].1 {
        if s.len() > 1 && s[1].0 == x + 1 {
            seq![(s[0].0, s[1].1)] + s.subrange(2, s.len() as int)
        } else {
            s.update(0, (s[0].0, (x + 1) as usize))
        }
    } else {
        seq![s[0]] + insert_index(s.drop_first(), x)
    }
}

/// `s` with the range `start .. start + size` added behind its last range: the last
/// range grows where the new one begins at its end, else the new one follows it.
pub open spec fn append_span(s: Seq<(usize, usize)>, start: usize, size: usize) -> Seq<
    (usize, usize),
>
    recommends
        start + size <= usize::MAX,
{
    if size == 0 {
        s
    } else if s.len() > 0 && s.last().1 == start {
        s.update(s.len() - 1, (s.last().0, (start + size) as usize))
    } else {
        s.push((start, (start + size) as usize))
    }
}

/// How many of the two neighbours of `x` the ranges of `s` hold.
pub open spec fn free_neighbours(s: Seq<(usize, usize)>, x: int) -> int {
    (if holds(s, x - 1) {
        1int
    } else {
        0int
    }) + (if holds(s, x + 1) {
        1int
    } else {
        0int
    })
}

/// The one range made by `span` holds exactly the indices from `start` up to
/// `start + size`.
pub proof fn lemma_span(start: usize, size: usize)
    requires
        start + size <= usize::MAX,
    ensures
        coalesced(span(start, size)),
        forall|x: int| #[trigger] holds(span(start, size), x) <==> start <= x < start + size,
{
    let s = span(start, size);
    assert forall|x: int| start <= x < start + size implies holds(s, x) by {
        assert(s[0].0 <= x < s[0].1);
    }
}

/// In a coalesced sequence the first range begins at the lowest index held.
pub proof fn lemma_lowest(s: Seq<(usize, usize)>)
    requires
        coalesced(s),
        s.len() > 0,
    ensures
        holds(s, s[0].0 as int),
        forall|x: int| holds(s, x) ==> s[0].0 <= x,
{
    assert(s[0].0 <= s[0].0 < s[0].1);
    assert forall|x: int| holds(s, x) implies s[0].0 <= x by {
        let i = choose|i: int| 0 <= i < s.len() && (#[trigger] s[i]).0 <= x < s[i].1;
        if i > 0 {
            assert(s[0].1 < s[i].0);
        }
    }
}

/// Taking the lowest index keeps the sequence coalesced and removes exactly that
/// index from the indices held.
pub proof fn lemma_take_lowest(s: Seq<(usize, usize)>)
    requires
        coalesced(s),
        s.len() > 0,
    ensures
        coalesced(take_lowest(s)),
        indices(take_lowest(s)) == indices(s).remove(s[0].0 as int),
        take_lowest(s).len() <= s.len(),
{
    let r = take_lowest(s);
    let low = s[0].0 as int;
    lemma_lowest(s);
    if s[0].0 + 1 == s[0].1 {
        assert forall|i: int| 0 <= i < r.len() implies (#[trigger] r[i]).0 < r[i].1 by {
            assert(r[i] == s[i + 1]);
        }
        assert forall|i: int, j: int| 0 <= i < j < r.len() implies (#[trigger] r[i]).1 < (
        #[trigger] r[j]).0 by {
            assert(r[i] == s[i + 1]);
            assert(r[j] == s[j + 1]);
        }
        assert forall|x: int| holds(r, x) <==> holds(s, x) && x != low by {
            if holds(r, x) {
                let i = choose|i: int| 0 <= i < r.len() && (#[trigger] r[i]).0 <= x < r[i].1;
                assert(r[i] == s[i + 1]);
                assert(s[i + 1].0 <= x < s[i + 1].1);
                assert(s[0].1 < s[i + 1].0);
            }
            if holds(s, x) && x != low {
                let i = choose|i: int| 0 <= i < s.len() && (#[trigger] s[i]).0 <= x < s[i].1;
                assert(i > 0);
                assert(r[i - 1] == s[i]);
                assert(r[i - 1].0 <= x < r[i - 1].1);
            }
        }
    } else {
        assert forall|i: int| 0 <= i < r.len() implies (#[trigger] r[i]).0 < r[i].1 by {
            if i > 0 {
                assert(r[i] == s[i]);
            }
        }
        assert forall|i: int, j: int| 0 <= i < j < r.len() implies (#[trigger] r[i]).1 < (
        #[trigger] r[j]).0 by {
            assert(r[j] == s[j]);
            assert(r[i].1 == s[i].1);
        }
        assert forall|x: int| holds(r, x) <==> holds(s, x) && x != low by {
            if holds(r, x) {
                let i = choose|i: int| 0 <= i < r.len() && (#[trigger] r[i]).0 <= x < r[i].1;
                assert(s[i].0 <= x < s[i].1);
                if i > 0 {
                    assert(s[0].1 < s[i].0);
                }
            }
            if holds(s, x) && x != low {
                let i = choose|i: int| 0 <= i < s.len() && (#[trigger] s[i]).0 <= x < s[i].1;
                assert(r[i].0 <= x < r[i].1);
            }
        }
    }
    assert(indices(r) =~= indices(s).remove(low));
}


/// A sequence that begins with the range `f` holds what `f` contains and what the
/// ranges after it hold.
pub proof fn lemma_holds_cons(f: (usize, usize), rest: Seq<(usize, usize)>, x: int)
    ensures
        holds(seq![f] + rest, x) <==> (f.0 <= x < f.1 || holds(rest, x)),
{
    let s = seq![f] + rest;
    if f.0 <= x < f.1 {
        assert(s[0].0 <= x < s[0].1);
    }
    if holds(rest, x) {
        let i = choose|i: int| 0 <= i < rest.len() && (#[trigger] rest[i]).0 <= x < rest[i].1;
        assert(s[i + 1] == rest[i]);
        assert(s[i + 1].0 <= x < s[i + 1].1);
    }
    if holds(s, x) {
        let i = choose|i: int| 0 <= i < s.len() && (#[trigger] s[i]).0 <= x < s[i].1;
        if i > 0 {
            assert(rest[i - 1] == s[i]);
            assert(rest[i - 1].0 <= x < rest[i - 1].1);
        }
    }
}

/// A sequence that begins with the range `f` is coalesced exactly when `f` is
/// non-empty, the rest is coalesced, and the rest begins beyond the end of `f`.
pub proof fn lemma_coalesced_cons(f: (usize, usize), rest: Seq<(usize, usize)>)
    ensures
        coalesced(seq![f] + rest) <==> (f.0 < f.1 && coalesced(rest) && starts_from(
            rest,
            f.1 + 1,
        )),
{
    let s = seq![f] + rest;
    if coalesced(s) {
        assert(s[0] == f);
        assert forall|i: int| 0 <= i < rest.len() implies (#[trigger] rest[i]).0 < rest[i].1 by {
            assert(rest[i] == s[i + 1]);
        }
        assert forall|i: int, j: int| 0 <= i < j < rest.len() implies (#[trigger] rest[i]).1 < (
        #[trigger] rest[j]).0 by {
            assert(rest[i] == s[i + 1]);
            assert(rest[j] == s[j + 1]);
        }
        assert forall|i: int| 0 <= i < rest.len() implies f.1 + 1 <= (#[trigger] rest[i]).0 by {
            assert(rest[i] == s[i + 1]);
            assert(s[0].1 < s[i + 1].0);
        }
    }
    if f.0 < f.1 && coalesced(rest) && starts_from(rest, f.1 + 1) {
        assert forall|i: int| 0 <= i < s.len() implies (#[trigger] s[i]).0 < s[i].1 by {
            if i > 0 {
                assert(s[i] == rest[i - 1]);
            }
        }
        assert forall|i: int, j: int| 0 <= i < j < s.len() implies (#[trigger] s[i]).1 < (
        #[trigger] s[j]).0 by {
            assert(s[j] == rest[j - 1]);
            if i > 0 {
                assert(s[i] == rest[i - 1]);
            }
        }
    }
}

/// A sequence that begins with the range `f` begins at `lo` or later exactly when
/// `f` does and the rest does.
pub proof fn lemma_starts_from_cons(f: (usize, usize), rest: Seq<(usize, usize)>, lo: int)
    ensures
        starts_from(seq![f] + rest, lo) <==> (lo <= f.0 && starts_from(rest, lo)),
{
    let s = seq![f] + rest;
    if starts_from(s, lo) {
        assert(s[0] == f);
        assert forall|i: int| 0 <= i < rest.len() implies lo <= (#[trigger] rest[i]).0 by {
            assert(rest[i] == s[i + 1]);
        }
    }
    if lo <= f.0 && starts_from(rest, lo) {
        assert forall|i: int| 0 <= i < s.len() implies lo <= (#[trigger] s[i]).0 by {
            if i > 0 {
                assert(s[i] == rest[i - 1]);
            }
        }
    }
}

/// A coalesced sequence that begins at `lo` or later holds no index below `lo`.
pub proof fn lemma_starts_from_holds(s: Seq<(usize, usize)>, lo: int, x: int)
    requires
        starts_from(s, lo),
        x < lo,
    ensures
        !holds(s, x),
{
}

/// A sequence that begins at `lo` or later also begins at any lower bound or later.
pub proof fn lemma_starts_from_weaken(s: Seq<(usize, usize)>, lo: int, lower: int)
    requires
        starts_from(s, lo),
        lower <= lo,
    ensures
        starts_from(s, lower),
{
}

/// Giving the index `x` back keeps the sequence coalesced, keeps it from beginning
/// any lower than `x` or its old beginning, and adds exactly `x` to the indices
/// held.
pub proof fn lemma_insert_index_from(s: Seq<(usize, usize)>, x: usize, lo: int)
    requires
        coalesced(s),
        x < usize::MAX,
        lo <= x,
        starts_from(s, lo),
    ensures
        coalesced(insert_index(s, x)),
        starts_from(insert_index(s, x), lo),
        forall|y: int| #[trigger] holds(insert_index(s, x), y) <==> (holds(s, y) || y == x),
        holds(s, x as int) ==> insert_index(s, x) == s,
        !holds(s, x as int) ==> insert_index(s, x).len() == s.len() + 1 - free_neighbours(
            s,
            x as int,
        ),
    decreases s.len(),
{
    let r = insert_index(s, x);
    let one = (x, (x + 1) as usize);
    if s.len() == 0 {
        assert(r =~= seq![one] + Seq::<(usize, usize)>::empty());
        lemma_coalesced_cons(one, Seq::empty());
        lemma_starts_from_cons(one, Seq::empty(), lo);
        assert forall|y: int| holds(r, y) <==> (holds(s, y) || y == x) by {
            lemma_holds_cons(one, Seq::empty(), y);
        }
    } else {
        let f = s[0];
        let t = s.drop_first();
        assert(s =~= seq![f] + t);
        lemma_coalesced_cons(f, t);
        lemma_starts_from_cons(f, t, lo);
        assert forall|y: int| holds(s, y) <==> f.0 <= y < f.1 || holds(t, y) by {
            lemma_holds_cons(f, t, y);
        }
        if x + 1 < f.0 {
            lemma_coalesced_cons(one, s);
            lemma_starts_from_cons(one, s, lo);
            lemma_starts_from_cons(f, t, x + 2);
            lemma_starts_from_weaken(t, f.1 + 1, x + 2);
            assert forall|y: int| holds(r, y) <==> (holds(s, y) || y == x) by {
                lemma_holds_cons(one, s, y);
            }
            lemma_starts_from_holds(s, x + 2, x as int);
            lemma_starts_from_holds(s, x + 2, x - 1);
            lemma_starts_from_holds(s, x + 2, x + 1);
        } else if x + 1 == f.0 {
            let g = (x, f.1);
            assert(r =~= seq![g] + t);
            lemma_coalesced_cons(g, t);
            lemma_starts_from_cons(g, t, lo);
            assert forall|y: int| holds(r, y) <==> (holds(s, y) || y == x) by {
                lemma_holds_cons(g, t, y);
            }
            lemma_starts_from_holds(t, f.1 + 1, x as int);
            lemma_starts_from_holds(t, f.1 + 1, x - 1);
            assert(f.0 <= x + 1 < f.1);
        } else if x < f.1 {
            assert(f.0 <= x < f.1);
        } else if x == f.1 {
            lemma_starts_from_holds(t, f.1 + 1, x as int);
            lemma_starts_from_holds(t, f.1 + 1, x - 1);
            assert(f.0 <= x - 1 < f.1);
            if s.len() > 1 && s[1].0 == x + 1 {
                let n = s[1];
                let u = t.drop_first();
                assert(t =~= seq![n] + u);
                assert(s.subrange(2, s.len() as int) =~= u);
                let g = (f.0, n.1);
                lemma_coalesced_cons(n, u);
                lemma_coalesced_cons(g, u);
                lemma_starts_from_cons(g, u, lo);
                lemma_starts_from_weaken(u, n.1 + 1, lo);
                assert forall|y: int| holds(r, y) <==> (holds(s, y) || y == x) by {
                    lemma_holds_cons(g, u, y);
                    lemma_holds_cons(n, u, y);
                }
                assert(holds(t, x + 1)) by {
                    lemma_holds_cons(n, u, x + 1);
                }
            } else {
                let g = (f.0, (x + 1) as usize);
                assert(r =~= seq![g] + t);
                assert(starts_from(t, x + 2)) by {
                    assert forall|i: int| 0 <= i < t.len() implies x + 2 <= (#[trigger] t[i]).0 by {
                        if i > 0 {
                            assert(t[0].1 < t[i].0);
                        } else {
                            assert(t[0] == s[1]);
                        }
                    }
                }
                lemma_coalesced_cons(g, t);
                lemma_starts_from_cons(g, t, lo);
                assert forall|y: int| holds(r, y) <==> (holds(s, y) || y == x) by {
                    lemma_holds_cons(g, t, y);
                }
                lemma_starts_from_holds(t, x + 2, x + 1);
            }
        } else {
            let r1 = insert_index(t, x);
            lemma_insert_index_from(t, x, f.1 + 1);
            assert(r =~= seq![f] + r1);
            lemma_coalesced_cons(f, r1);
            lemma_starts_from_cons(f, r1, lo);
            lemma_starts_from_weaken(r1, f.1 + 1, lo);
            assert forall|y: int| holds(r, y) <==> (holds(s, y) || y == x) by {
                lemma_holds_cons(f, r1, y);
            }
            if holds(t, x as int) {
                assert(r1 == t);
            } else {
                assert(holds(s, x - 1) <==> holds(t, x - 1));
                assert(holds(s, x + 1) <==> holds(t, x + 1));
            }
        }
    }
}

/// Giving an index back keeps the sequence coalesced and adds exactly that index
/// to the indices held. An index that was held already changes nothing; any other
/// adds one range, less one for each of its two neighbours that was held.
pub proof fn lemma_insert_index(s: Seq<(usize, usize)>, x: usize)
    requires
        coalesced(s),
        x < usize::MAX,
    ensures
        coalesced(insert_index(s, x)),
        indices(insert_index(s, x)) == indices(s).insert(x as int),
        holds(s, x as int) ==> insert_index(s, x) == s,
        !holds(s, x as int) ==> insert_index(s, x).len() == s.len() + 1 - free_neighbours(
            s,
            x as int,
        ),
{
    lemma_insert_index_from(s, x, 0);
    assert(indices(insert_index(s, x)) =~= indices(s).insert(x as int));
}

/// Appending a range that begins at or beyond the end of the last one keeps the
/// sequence coalesced and adds exactly the indices of that range.
pub proof fn lemma_append_span(s: Seq<(usize, usize)>, start: usize, size: usize)
    requires
        coalesced(s),
        start + size <= usize::MAX,
        s.len() > 0 ==> s.last().1 <= start,
    ensures
        coalesced(append_span(s, start, size)),
        forall|x: int|
            #[trigger] holds(append_span(s, start, size), x) <==> (holds(s, x) || start <= x < start
                + size),
        append_span(s, start, size).len() <= s.len() + 1,
{
    let r = append_span(s, start, size);
    let last = s.len() - 1;
    if size == 0 {
    } else if s.len() > 0 && s.last().1 == start {
        assert forall|i: int, j: int| 0 <= i < j < r.len() implies (#[trigger] r[i]).1 < (
        #[trigger] r[j]).0 by {
            assert(r[i] == s[i]);
            assert(r[j].0 == s[j].0);
        }
        assert forall|x: int| holds(r, x) <==> (holds(s, x) || start <= x < start + size) by {
            if holds(r, x) {
                let i = choose|i: int| 0 <= i < r.len() && (#[trigger] r[i]).0 <= x < r[i].1;
                if i == last {
                    if x < start {
                        assert(s[last].0 <= x < s[last].1);
                    }
                } else {
                    assert(s[i].0 <= x < s[i].1);
                }
            }
            if holds(s, x) {
                let i = choose|i: int| 0 <= i < s.len() && (#[trigger] s[i]).0 <= x < s[i].1;
                assert(r[i].0 <= x < r[i].1);
            }
            if start <= x < start + size {
                assert(r[last].0 <= x < r[last].1);
            }
        }
    } else {
        assert forall|i: int, j: int| 0 <= i < j < r.len() implies (#[trigger] r[i]).1 < (
        #[trigger] r[j]).0 by {
            assert(r[i] == s[i]);
            if j == s.len() {
                if i < last {
                    assert(s[i].1 < s[last].0);
                }
            } else {
                assert(r[j] == s[j]);
            }
        }
        assert forall|x: int| holds(r, x) <==> (holds(s, x) || start <= x < start + size) by {
            if holds(r, x) {
                let i = choose|i: int| 0 <= i < r.len() && (#[trigger] r[i]).0 <= x < r[i].1;
                if i < s.len() {
                    assert(s[i].0 <= x < s[i].1);
                }
            }
            if holds(s, x) {
                let i = choose|i: int| 0 <= i < s.len() && (#[trigger] s[i]).0 <= x < s[i].1;
                assert(r[i] == s[i]);
                assert(r[i].0 <= x < r[i].1);
            }
            if start <= x < start + size {
                assert(r[s.len() as int].0 <= x < r[s.len() as int].1);
            }
        }
    }
}

/// Two coalesced sequences that hold the same indices are the same sequence: the
/// indices held decide the ranges.
pub proof fn lemma_coalesced_unique(a: Seq<(usize, usize)>, b: Seq<(usize, usize)>)
    requires
        coalesced(a),
        coalesced(b),
        forall|x: int| holds(a, x) <==> holds(b, x),
    ensures
        a == b,
    decreases a.len(),
{
    if a.len() == 0 || b.len() == 0 {
        if a.len() > 0 {
            lemma_lowest(a);
            assert(holds(b, a[0].0 as int));
        }
        if b.len() > 0 {
            lemma_lowest(b);
            assert(holds(a, b[0].0 as int));
        }
        assert(a =~= b);
    } else {
        let f = a[0];
        let g = b[0];
        let ta = a.drop_first();
        let tb = b.drop_first();
        assert(a =~= seq![f] + ta);
        assert(b =~= seq![g] + tb);
        lemma_lowest(a);
        lemma_lowest(b);
        lemma_coalesced_cons(f, ta);
        lemma_coalesced_cons(g, tb);
        assert(f.0 == g.0);
        assert forall|x: int| holds(a, x) <==> (f.0 <= x < f.1 || holds(ta, x)) by {
            lemma_holds_cons(f, ta, x);
        }
        assert forall|x: int| holds(b, x) <==> (g.0 <= x < g.1 || holds(tb, x)) by {
            lemma_holds_cons(g, tb, x);
        }
        if f.1 < g.1 {
            lemma_starts_from_holds(ta, f.1 + 1, f.1 as int);
            assert(holds(b, f.1 as int));
        }
        if g.1 < f.1 {
            lemma_starts_from_holds(tb, g.1 + 1, g.1 as int);
            assert(holds(a, g.1 as int));
        }
        assert(f == g);
        assert forall|x: int| holds(ta, x) <==> holds(tb, x) by {
            if x <= f.1 {
                lemma_starts_from_holds(ta, f.1 + 1, x);
                lemma_starts_from_holds(tb, f.1 + 1, x);
            }
        }
        lemma_coalesced_unique(ta, tb);
    }
}

/// The order in which two indices are given back does not matter.
pub proof fn lemma_insert_index_commutes(s: Seq<(usize, usize)>, x: usize, y: usize)
    requires
        coalesced(s),
        x < usize::MAX,
        y < usize::MAX,
    ensures
        insert_index(insert_index(s, x), y) == insert_index(insert_index(s, y), x),
{
    let sx = insert_index(s, x);
    let sy = insert_index(s, y);
    lemma_insert_index_from(s, x, 0);
    lemma_insert_index_from(s, y, 0);
    lemma_insert_index_from(sx, y, 0);
    lemma_insert_index_from(sy, x, 0);
    lemma_coalesced_unique(insert_index(sx, y), insert_index(sy, x));
}

/// Giving back the index that was taken last restores the ranges as they
/// were.
pub proof fn lemma_give_back_restores(s: Seq<(usize, usize)>)
    requires
        coalesced(s),
        s.len() > 0,
    ensures
        insert_index(take_lowest(s), s[0].0) == s,
{
    let rest = take_lowest(s);
    lemma_lowest(s);
    lemma_take_lowest(s);
    lemma_insert_index_from(rest, s[0].0, 0);
    assert forall|x: int| holds(insert_index(rest, s[0].0), x) <==> holds(s, x) by {
        assert(indices(rest).contains(x) <==> indices(s).contains(x) && x != s[0].0);
    }
    lemma_coalesced_unique(insert_index(rest, s[0].0), s);
}

} // verus!
