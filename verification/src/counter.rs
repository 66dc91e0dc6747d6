//! Per-author mention counting and the leaderboard query.
//!
//! The table maps author identities (opaque `u64` keys) to the number of
//! qualifying mentions recorded for them.  A count is created at one and
//! only ever increases.  Calls that share a table must be serialized by the
//! caller (for example behind a lock); each `record_mention` call then
//! observes its own increment, so no two calls for the same author return
//! the same post-increment value.

use vstd::multiset::Multiset;
use vstd::prelude::*;

verus! {

broadcast use vstd::seq_lib::group_to_multiset_ensures, vstd::multiset::group_multiset_axioms;

/// No author identity occurs twice in the table's entries.
pub open spec fn distinct_authors(s: Seq<(u64, u64)>) -> bool {
    forall|i: int, j: int| 0 <= i < j < s.len() ==> s[i].0 != s[j].0
}

/// Some entry carries author `a`.
pub open spec fn seq_has_author(s: Seq<(u64, u64)>, a: u64) -> bool {
    exists|i: int| 0 <= i < s.len() && s[i].0 == a
}

/// The position of author `a`'s entry (meaningful when `seq_has_author`).
pub open spec fn author_index(s: Seq<(u64, u64)>, a: u64) -> int {
    choose|i: int| 0 <= i < s.len() && s[i].0 == a
}

/// The count stored for author `a`; zero when `a` has no entry.
pub open spec fn seq_count_of(s: Seq<(u64, u64)>, a: u64) -> u64 {
    if seq_has_author(s, a) {
        s[author_index(s, a)].1
    } else {
        0u64
    }
}

/// The sum of all stored counts: the total number of recorded increments.
pub open spec fn seq_sum(s: Seq<(u64, u64)>) -> int
    decreases s.len(),
{
    if s.len() == 0 {
        0
    } else {
        seq_sum(s.drop_last()) + s.last().1
    }
}

/// One counter transition: increment `a`'s entry, or append it at one.
pub open spec fn counter_step(s: Seq<(u64, u64)>, a: u64) -> Seq<(u64, u64)> {
    if seq_has_author(s, a) {
        s.update(author_index(s, a), (a, (s[author_index(s, a)].1 + 1) as u64))
    } else {
        s.push((a, 1u64))
    }
}

/// In a table with distinct authors, the entry at a known position `j`
/// is the one `author_index` and `seq_count_of` speak of.
pub proof fn lemma_count_at(s: Seq<(u64, u64)>, a: u64, j: int)
    requires
        distinct_authors(s),
        0 <= j < s.len(),
        s[j].0 == a,
    ensures
        seq_has_author(s, a),
        author_index(s, a) == j,
        seq_count_of(s, a) == s[j].1,
{
    assert(seq_has_author(s, a));
    let i = author_index(s, a);
    assert(0 <= i < s.len() && s[i].0 == a);
    if i != j {
        if i < j {
            assert(s[i].0 != s[j].0);
        } else {
            assert(s[j].0 != s[i].0);
        }
    }
}

/// Two tables of equal length whose entries carry the same authors
/// position by position, and whose entries for author `b` carry the same
/// count, agree on `b`.
pub proof fn lemma_count_of_same(s0: Seq<(u64, u64)>, s1: Seq<(u64, u64)>, b: u64)
    requires
        s0.len() == s1.len(),
        forall|i: int| 0 <= i < s0.len() ==> s1[i].0 == s0[i].0,
        forall|i: int| 0 <= i < s0.len() && s0[i].0 == b ==> s1[i].1 == s0[i].1,
        distinct_authors(s0),
    ensures
        seq_has_author(s1, b) == seq_has_author(s0, b),
        seq_count_of(s1, b) == seq_count_of(s0, b),
{
    if seq_has_author(s0, b) {
        let i0 = author_index(s0, b);
        assert(0 <= i0 < s0.len() && s0[i0].0 == b);
        assert(s1[i0].0 == b);
        assert(seq_has_author(s1, b));
        let i1 = author_index(s1, b);
        assert(0 <= i1 < s1.len() && s1[i1].0 == b);
        assert(s0[i1].0 == b);
        if i0 != i1 {
            if i0 < i1 {
                assert(s0[i0].0 != s0[i1].0);
            } else {
                assert(s0[i1].0 != s0[i0].0);
            }
        }
        assert(seq_count_of(s1, b) == s1[i0].1);
        assert(s1[i0].1 == s0[i0].1);
    } else {
        if seq_has_author(s1, b) {
            let i1 = author_index(s1, b);
            assert(s0[i1].0 == b);
        }
    }
}

/// Appending an entry for a new author leaves every other author's count
/// alone.
pub proof fn lemma_count_of_push(s: Seq<(u64, u64)>, e: (u64, u64), b: u64)
    requires
        distinct_authors(s),
        !seq_has_author(s, e.0),
        b != e.0,
    ensures
        seq_has_author(s.push(e), b) == seq_has_author(s, b),
        seq_count_of(s.push(e), b) == seq_count_of(s, b),
{
    let s1 = s.push(e);
    if seq_has_author(s, b) {
        let i0 = author_index(s, b);
        assert(s1[i0].0 == b);
        assert(seq_has_author(s1, b));
        let i1 = author_index(s1, b);
        assert(0 <= i1 < s1.len() && s1[i1].0 == b);
        assert(i1 < s.len());
        assert(s[i1].0 == b);
        if i0 != i1 {
            if i0 < i1 {
                assert(s[i0].0 != s[i1].0);
            } else {
                assert(s[i1].0 != s[i0].0);
            }
        }
        assert(seq_count_of(s1, b) == s1[i0].1);
        assert(s1[i0] == s[i0]);
    } else {
        if seq_has_author(s1, b) {
            let i1 = author_index(s1, b);
            assert(0 <= i1 < s1.len() && s1[i1].0 == b);
            assert(i1 < s.len());
            assert(s[i1].0 == b);
        }
    }
}

/// Replacing the entry at `j` changes the sum by the difference of the
/// counts.
pub proof fn lemma_sum_update(s: Seq<(u64, u64)>, j: int, v: (u64, u64))
    requires
        0 <= j < s.len(),
    ensures
        seq_sum(s.update(j, v)) == seq_sum(s) - s[j].1 + v.1,
    decreases s.len(),
{
    let s1 = s.update(j, v);
    if j == s.len() - 1 {
        assert(s1.drop_last() =~= s.drop_last());
        assert(s1.last() == v);
    } else {
        assert(s1.drop_last() =~= s.drop_last().update(j, v));
        lemma_sum_update(s.drop_last(), j, v);
        assert(s1.last() == s.last());
    }
}

/// Removing the entry at `j` lowers the sum by its count.
pub proof fn lemma_sum_remove(s: Seq<(u64, u64)>, j: int)
    requires
        0 <= j < s.len(),
    ensures
        seq_sum(s.remove(j)) == seq_sum(s) - s[j].1,
    decreases s.len(),
{
    let s1 = s.remove(j);
    if j == s.len() - 1 {
        assert(s1 =~= s.drop_last());
    } else {
        assert(s1.drop_last() =~= s.drop_last().remove(j));
        lemma_sum_remove(s.drop_last(), j);
        assert(s1.last() == s.last());
    }
}

/// Appending an entry raises the sum by its count.
pub proof fn lemma_sum_push(s: Seq<(u64, u64)>, e: (u64, u64))
    ensures
        seq_sum(s.push(e)) == seq_sum(s) + e.1,
{
    assert(s.push(e).drop_last() =~= s);
    assert(s.push(e).last() == e);
}

/// A prefix of a table never sums to more than the whole table.
pub proof fn lemma_sum_take_le(s: Seq<(u64, u64)>, m: int)
    requires
        0 <= m <= s.len(),
    ensures
        seq_sum(s.take(m)) <= seq_sum(s),
    decreases s.len(),
{
    if m == s.len() {
        assert(s.take(m) =~= s);
    } else {
        assert(s.take(m) =~= s.drop_last().take(m));
        lemma_sum_take_le(s.drop_last(), m);
    }
}

/// How many of the mentions in `s` are by author `a`.
pub open spec fn occurrences(s: Seq<u64>, a: u64) -> int
    decreases s.len(),
{
    if s.len() == 0 {
        0
    } else {
        occurrences(s.drop_last(), a) + if s.last() == a {
            1int
        } else {
            0int
        }
    }
}

/// The table contents after recording the mentions in `s`, in order,
/// starting from an empty table.
pub open spec fn counter_run(s: Seq<u64>) -> Seq<(u64, u64)>
    decreases s.len(),
{
    if s.len() == 0 {
        Seq::<(u64, u64)>::empty()
    } else {
        counter_step(counter_run(s.drop_last()), s.last())
    }
}

/// Recording one more mention advances the model by one `counter_step`.
pub proof fn lemma_counter_run_push(s: Seq<u64>, a: u64)
    ensures
        counter_run(s.push(a)) == counter_step(counter_run(s), a),
{
    assert(s.push(a).drop_last() =~= s);
    assert(s.push(a).last() == a);
}

/// After any sequence of recorded mentions, the stored count for every
/// author equals the number of mentions by that author, and the sum of
/// all stored counts equals the number of recorded increments.  In
/// particular the Nth mention by an author is returned as count N: no
/// increment is ever lost, whatever the interleaving across authors.
pub proof fn lemma_counts_are_occurrences(s: Seq<u64>)
    requires
        forall|b: u64| occurrences(s, b) <= u64::MAX,
    ensures
        distinct_authors(counter_run(s)),
        forall|b: u64| #[trigger] seq_count_of(counter_run(s), b) == occurrences(s, b),
        seq_sum(counter_run(s)) == s.len(),
    decreases s.len(),
{
    if s.len() == 0 {
        assert forall|b: u64| #[trigger] seq_count_of(counter_run(s), b) == occurrences(s, b) by {
            assert(!seq_has_author(counter_run(s), b));
        }
    } else {
        let prefix = s.drop_last();
        let last = s.last();
        let prev = counter_run(prefix);
        let step = counter_run(s);
        assert forall|b: u64| occurrences(prefix, b) <= u64::MAX by {
            assert(occurrences(s, b) <= u64::MAX);
        }
        lemma_counts_are_occurrences(prefix);
        if seq_has_author(prev, last) {
            let j = author_index(prev, last);
            assert(0 <= j < prev.len() && prev[j].0 == last);
            lemma_count_at(prev, last, j);
            let c = prev[j].1;
            assert(step == prev.update(j, (last, (c + 1) as u64)));
            assert(c == occurrences(prefix, last));
            assert(occurrences(s, last) == c + 1);
            assert(c + 1 <= u64::MAX);
            assert forall|x: int, y: int| 0 <= x < y < step.len() implies step[x].0 != step[y].0
            by {
                assert(step[x].0 == prev[x].0);
                assert(step[y].0 == prev[y].0);
            }
            lemma_count_at(step, last, j);
            assert forall|b: u64| #[trigger] seq_count_of(step, b) == occurrences(s, b) by {
                if b != last {
                    lemma_count_of_same(prev, step, b);
                }
            }
            lemma_sum_update(prev, j, (last, (c + 1) as u64));
        } else {
            assert(step == prev.push((last, 1u64)));
            assert(seq_count_of(prev, last) == 0);
            assert(occurrences(prefix, last) == 0);
            assert forall|x: int, y: int| 0 <= x < y < step.len() implies step[x].0 != step[y].0
            by {
                if y < prev.len() {
                    assert(step[x].0 == prev[x].0 && step[y].0 == prev[y].0);
                } else {
                    assert(step[y].0 == last);
                    assert(step[x].0 == prev[x].0);
                    if prev[x].0 == last {
                        assert(seq_has_author(prev, last));
                    }
                }
            }
            lemma_count_at(step, last, prev.len() as int);
            assert forall|b: u64| #[trigger] seq_count_of(step, b) == occurrences(s, b) by {
                if b != last {
                    lemma_count_of_push(prev, (last, 1u64), b);
                }
            }
            lemma_sum_push(prev, (last, 1u64));
        }
    }
}

/// Leaderboard order: `x` may stand no later than `y` when `x` has the
/// strictly greater count, or the same count and the smaller-or-equal
/// author identity.  Ties in count are thus broken deterministically, by
/// ascending author identity.
pub open spec fn entry_le(x: (u64, u64), y: (u64, u64)) -> bool {
    x.1 > y.1 || (x.1 == y.1 && x.0 <= y.0)
}

/// Sorted descending by count, ties ascending by author identity.
pub open spec fn sorted_desc(s: Seq<(u64, u64)>) -> bool {
    forall|i: int, j: int| 0 <= i < j < s.len() ==> entry_le(s[i], s[j])
}

/// `n` capped at the length of the table.
pub open spec fn cap_len(n: int, len: int) -> int {
    if n <= len {
        n
    } else {
        len
    }
}

/// `full` rearranges the whole table into leaderboard order and `r` is its
/// prefix of length `n` (capped at the table size).
pub open spec fn top_n_witness(
    table: Seq<(u64, u64)>,
    n: int,
    r: Seq<(u64, u64)>,
    full: Seq<(u64, u64)>,
) -> bool {
    &&& full.to_multiset() == table.to_multiset()
    &&& sorted_desc(full)
    &&& r == full.take(cap_len(n, table.len() as int))
}

/// `r` is the leaderboard of the first `n` entries of `table`: a prefix of
/// some reordering of the whole table that is sorted descending by count,
/// ties broken by ascending author identity.
pub open spec fn is_top_n(table: Seq<(u64, u64)>, n: int, r: Seq<(u64, u64)>) -> bool {
    exists|full: Seq<(u64, u64)>| top_n_witness(table, n, r, full)
}

/// The leaderboard order relates every two entries one way or the other.
pub proof fn lemma_entry_le_total(x: (u64, u64), y: (u64, u64))
    ensures
        entry_le(x, y) || entry_le(y, x),
{
}

/// The leaderboard order is transitive.
pub proof fn lemma_entry_le_trans(x: (u64, u64), y: (u64, u64), z: (u64, u64))
    requires
        entry_le(x, y),
        entry_le(y, z),
    ensures
        entry_le(x, z),
{
}

/// Executable form of [`entry_le`].
fn entry_before(x: (u64, u64), y: (u64, u64)) -> (r: bool)
    ensures
        r == entry_le(x, y),
{
    x.1 > y.1 || (x.1 == y.1 && x.0 <= y.0)
}

/// The per-author mention counter: a table of `(author, count)` entries,
/// one per author that has ever had a qualifying mention.
pub struct CounterTable {
    entries: Vec<(u64, u64)>,
}

impl View for CounterTable {
    type V = Seq<(u64, u64)>;

    closed spec fn view(&self) -> Seq<(u64, u64)> {
        self.entries@
    }
}

impl CounterTable {
    /// Well-formed: authors are distinct and every stored count is at
    /// least one.
    pub open spec fn wf(self) -> bool {
        &&& distinct_authors(self@)
        &&& forall|i: int| 0 <= i < self@.len() ==> (#[trigger] self@[i]).1 >= 1
    }

    /// An empty table: no author has been counted yet.
    pub fn new() -> (r: CounterTable)
        ensures
            r.wf(),
            r@ == Seq::<(u64, u64)>::empty(),
    {
        CounterTable { entries: Vec::new() }
    }

    /// The count currently stored for `author`, zero when absent.
    pub fn count(&self, author: u64) -> (r: u64)
        requires
            self.wf(),
        ensures
            r == seq_count_of(self@, author),
    {
        let n = self.entries.len();
        let mut j: usize = 0;
        while j < n
            invariant
                n == self@.len(),
                j <= n,
                self.wf(),
                forall|k: int| 0 <= k < j ==> (#[trigger] self@[k]).0 != author,
            decreases n - j,
        {
            if self.entries[j].0 == author {
                proof {
                    lemma_count_at(self@, author, j as int);
                }
                return self.entries[j].1;
            }
            j = j + 1;
        }
        proof {
            assert(!seq_has_author(self@, author));
        }
        0
    }

    /// Record one qualifying mention by `author` and return the
    /// post-increment count: the entry is created at one when absent and
    /// incremented otherwise, no other author's entry changes, and the
    /// total number of recorded increments grows by exactly one.
    pub fn record_mention(&mut self, author: u64) -> (r: u64)
        requires
            old(self).wf(),
            seq_count_of(old(self)@, author) < u64::MAX,
        ensures
            final(self).wf(),
            final(self)@ == counter_step(old(self)@, author),
            r == seq_count_of(old(self)@, author) + 1,
            seq_count_of(final(self)@, author) == r,
            forall|b: u64| b != author ==> seq_count_of(final(self)@, b) == seq_count_of(
                old(self)@,
                b,
            ),
            forall|b: u64| seq_has_author(final(self)@, b) == (seq_has_author(old(self)@, b) || b
                == author),
            seq_sum(final(self)@) == seq_sum(old(self)@) + 1,
    {
        let ghost s0 = self@;
        let n = self.entries.len();
        let mut j: usize = 0;
        while j < n
            invariant
                n == s0.len(),
                j <= n,
                s0 == old(self)@,
                self@ == s0,
                self.wf(),
                seq_count_of(s0, author) < u64::MAX,
                forall|k: int| 0 <= k < j ==> (#[trigger] s0[k]).0 != author,
            decreases n - j,
        {
            if self.entries[j].0 == author {
                proof {
                    lemma_count_at(s0, author, j as int);
                }
                let c = self.entries[j].1;
                self.entries[j] = (author, c + 1);
                proof {
                    let s1 = self@;
                    assert(s1 == s0.update(j as int, (author, (c + 1) as u64)));
                    assert forall|x: int, y: int| 0 <= x < y < s1.len() implies s1[x].0 != s1[y].0
                    by {
                        assert(s1[x].0 == s0[x].0);
                        assert(s1[y].0 == s0[y].0);
                    }
                    lemma_count_at(s1, author, j as int);
                    assert forall|b: u64| b != author implies seq_count_of(s1, b) == seq_count_of(
                        s0,
                        b,
                    ) && seq_has_author(s1, b) == seq_has_author(s0, b) by {
                        lemma_count_of_same(s0, s1, b);
                    }
                    lemma_sum_update(s0, j as int, (author, (c + 1) as u64));
                }
                return c + 1;
            }
            j = j + 1;
        }
        proof {
            assert(!seq_has_author(s0, author));
        }
        self.entries.push((author, 1));
        proof {
            let s1 = self@;
            assert(s1 == s0.push((author, 1u64)));
            assert forall|x: int, y: int| 0 <= x < y < s1.len() implies s1[x].0 != s1[y].0 by {
                if y < s0.len() {
                    assert(s1[x].0 == s0[x].0 && s1[y].0 == s0[y].0);
                } else {
                    assert(s1[y].0 == author);
                    assert(s1[x].0 == s0[x].0);
                    assert(!(s0[x].0 == author)) by {
                        if s0[x].0 == author {
                            assert(seq_has_author(s0, author));
                        }
                    }
                }
            }
            lemma_count_at(s1, author, s0.len() as int);
            assert forall|b: u64| b != author implies seq_count_of(s1, b) == seq_count_of(s0, b)
                && seq_has_author(s1, b) == seq_has_author(s0, b) by {
                lemma_count_of_push(s0, (author, 1u64), b);
            }
            lemma_sum_push(s0, (author, 1u64));
        }
        1
    }

    /// The leaderboard: the first `n` entries of the table in descending
    /// order of count, ties broken by ascending author identity.  The
    /// result is a point-in-time snapshot; the sum of the counts it
    /// returns never exceeds the sum of all recorded increments.
    pub fn top_n(&self, n: usize) -> (r: Vec<(u64, u64)>)
        requires
            self.wf(),
        ensures
            is_top_n(self@, n as int, r@),
            sorted_desc(r@),
            r@.len() == cap_len(n as int, self@.len() as int),
            seq_sum(r@) <= seq_sum(self@),
    {
        let ghost table = self@;
        let m0 = self.entries.len();
        let mut rest: Vec<(u64, u64)> = Vec::new();
        let mut k: usize = 0;
        while k < m0
            invariant
                table == self@,
                m0 == table.len(),
                k <= m0,
                rest@ == table.take(k as int),
            decreases m0 - k,
        {
            rest.push(self.entries[k]);
            proof {
                assert(rest@ =~= table.take(k + 1 as int));
            }
            k = k + 1;
        }
        proof {
            assert(rest@ =~= table);
        }

        let mut sorted: Vec<(u64, u64)> = Vec::new();
        while rest.len() > 0
            invariant
                sorted@.to_multiset().add(rest@.to_multiset()) == table.to_multiset(),
                seq_sum(sorted@) + seq_sum(rest@) == seq_sum(table),
                sorted_desc(sorted@),
                forall|x: int, y: int|
                    0 <= x < sorted@.len() && 0 <= y < rest@.len() ==> entry_le(
                        sorted@[x],
                        rest@[y],
                    ),
            decreases rest.len(),
        {
            let rl = rest.len();
            let mut m: usize = 0;
            let mut i: usize = 1;
            while i < rl
                invariant
                    rl == rest@.len(),
                    1 <= i <= rl,
                    m < i,
                    forall|q: int| 0 <= q < i ==> entry_le(rest@[m as int], rest@[q]),
                decreases rl - i,
            {
                if !entry_before(rest[m], rest[i]) {
                    proof {
                        lemma_entry_le_total(rest@[m as int], rest@[i as int]);
                        assert forall|q: int| 0 <= q < i + 1 implies entry_le(
                            rest@[i as int],
                            rest@[q],
                        ) by {
                            if q < i {
                                lemma_entry_le_trans(rest@[i as int], rest@[m as int], rest@[q]);
                            }
                        }
                    }
                    m = i;
                }
                i = i + 1;
            }
            let ghost rest0 = rest@;
            let ghost sorted0 = sorted@;
            let e = rest.remove(m);
            sorted.push(e);
            proof {
                assert(rest@ == rest0.remove(m as int));
                assert(sorted@ == sorted0.push(e));
                assert(rest0.to_multiset().count(e) > 0) by {
                    assert(rest0.contains(e)) by {
                        assert(rest0[m as int] == e);
                    }
                }
                assert(sorted@.to_multiset().add(rest@.to_multiset())
                    =~= table.to_multiset());
                lemma_sum_remove(rest0, m as int);
                lemma_sum_push(sorted0, e);
                assert forall|x: int, y: int|
                    0 <= x < sorted@.len() && 0 <= y < rest@.len() implies entry_le(
                    sorted@[x],
                    rest@[y],
                ) by {
                    if y < m {
                        assert(rest@[y] == rest0[y]);
                    } else {
                        assert(rest@[y] == rest0[y + 1]);
                    }
                    if x < sorted0.len() {
                        assert(sorted@[x] == sorted0[x]);
                    } else {
                        assert(sorted@[x] == e);
                    }
                }
            }
        }

        let ghost full = sorted@;
        proof {
            assert(rest@ =~= Seq::<(u64, u64)>::empty());
            assert(rest@.to_multiset() =~= Multiset::<(u64, u64)>::empty());
            assert(full.to_multiset() =~= table.to_multiset());
            assert(full.to_multiset().len() == table.to_multiset().len());
            assert(full.len() == table.len());
        }
        let mut out = sorted;
        out.truncate(n);
        proof {
            let c = cap_len(n as int, table.len() as int);
            assert(out@ =~= full.take(c));
            assert(top_n_witness(table, n as int, out@, full));
            assert(is_top_n(table, n as int, out@));
            lemma_sum_take_le(full, c);
        }
        out
    }
}

} // verus!
