//! The in-memory vector index: stored passages with their embeddings, and
//! brute-force retrieval of the passages most similar to a query.

use vstd::prelude::*;
use crate::vector::MAX_DIMS;
use crate::score::{Score, score_num, score_den, frac_gt, frac_eq, lemma_frac_gt_ge,
    lemma_self_similarity_maximal};

verus! {

/// A stored passage and its embedding.
pub struct IndexEntry {
    pub text: String,
    pub embedding: Vec<i8>,
}

impl View for IndexEntry {
    type V = (Seq<char>, Seq<i8>);

    open spec fn view(&self) -> (Seq<char>, Seq<i8>) {
        (self.text@, self.embedding@)
    }
}

/// One retrieved passage: its position in the index, its text and its
/// similarity to the query.
pub struct Match {
    pub id: usize,
    pub text: String,
    pub score: Score,
}

/// Passages with their embeddings, in insertion order.
pub struct VectorIndex {
    entries: Vec<IndexEntry>,
}

/// The common dimension of the stored embeddings; zero for no entries.
pub open spec fn dims_of(entries: Seq<(Seq<char>, Seq<i8>)>) -> nat {
    if entries.len() == 0 {
        0
    } else {
        entries[0].1.len()
    }
}

/// All embeddings share one dimension, which is at most `MAX_DIMS`.
pub open spec fn uniform(entries: Seq<(Seq<char>, Seq<i8>)>) -> bool {
    &&& dims_of(entries) <= MAX_DIMS
    &&& forall|i: int| 0 <= i < entries.len() ==> (#[trigger] entries[i]).1.len() == dims_of(entries)
}

/// A new embedding fits the entries: it has their dimension, or there are
/// none and it is at most `MAX_DIMS` long.
pub open spec fn fits(entries: Seq<(Seq<char>, Seq<i8>)>, v: Seq<i8>) -> bool {
    if entries.len() == 0 {
        v.len() <= MAX_DIMS
    } else {
        v.len() == dims_of(entries)
    }
}

/// A query vector can be scored against the entries: it has their
/// dimension, or there are none.
pub open spec fn comparable(entries: Seq<(Seq<char>, Seq<i8>)>, q: Seq<i8>) -> bool {
    entries.len() == 0 || q.len() == dims_of(entries)
}

/// Entry `a` ranks before entry `b` for the query `q`: its score is
/// greater, or the scores are equal and `a` was inserted first.
pub open spec fn precedes(entries: Seq<(Seq<char>, Seq<i8>)>, q: Seq<i8>, a: int, b: int) -> bool {
    let na = score_num(q, entries[a].1);
    let da = score_den(q, entries[a].1);
    let nb = score_num(q, entries[b].1);
    let db = score_den(q, entries[b].1);
    frac_gt(na, da, nb, db) || (frac_eq(na, da, nb, db) && a < b)
}

/// `r` lists the positions of the `k` best entries for `q`, best first:
/// as many as `k` and the index allow, each ranking before the next and
/// before every entry left out.
pub open spec fn is_ranking(entries: Seq<(Seq<char>, Seq<i8>)>, q: Seq<i8>, k: nat, r: Seq<int>) -> bool {
    &&& r.len() == if k <= entries.len() { k } else { entries.len() }
    &&& forall|i: int| 0 <= i < r.len() ==> 0 <= #[trigger] r[i] < entries.len()
    &&& forall|i: int, j: int| #![trigger r[i], r[j]]
            0 <= i < j < r.len() ==> precedes(entries, q, r[i], r[j])
    &&& forall|i: int, m: int| #![trigger precedes(entries, q, r[i], m)]
            0 <= i < r.len() && 0 <= m < entries.len() && !r.contains(m)
                ==> precedes(entries, q, r[i], m)
}

/// The index positions named by a sequence of matches.
pub open spec fn ids_of(ms: Seq<Match>) -> Seq<int> {
    Seq::new(ms.len(), |i: int| ms[i].id as int)
}

/// The texts of the entries at the positions `r`, in order.
pub open spec fn texts_at(entries: Seq<(Seq<char>, Seq<i8>)>, r: Seq<int>) -> Seq<Seq<char>> {
    Seq::new(r.len(), |i: int| entries[r[i]].0)
}

/// Number of `true` values among the first `n` of `s`.
spec fn count_set(s: Seq<bool>, n: int) -> int
    decreases n,
{
    if n <= 0 {
        0
    } else {
        count_set(s, n - 1) + if s[n - 1] { 1int } else { 0int }
    }
}

proof fn lemma_count_none_set(s: Seq<bool>, n: int)
    requires
        0 <= n <= s.len(),
        forall|m: int| 0 <= m < n ==> !s[m],
    ensures
        count_set(s, n) == 0,
    decreases n,
{
    if n > 0 {
        lemma_count_none_set(s, n - 1);
    }
}

proof fn lemma_count_all_set(s: Seq<bool>, n: int)
    requires
        0 <= n <= s.len(),
        forall|m: int| 0 <= m < n ==> s[m],
    ensures
        count_set(s, n) == n,
    decreases n,
{
    if n > 0 {
        lemma_count_all_set(s, n - 1);
    }
}

proof fn lemma_count_after_set(s: Seq<bool>, i: int, n: int)
    requires
        0 <= i < s.len(),
        0 <= n <= s.len(),
        !s[i],
    ensures
        count_set(s.update(i, true), n) == count_set(s, n) + if i < n { 1int } else { 0int },
    decreases n,
{
    if n > 0 {
        lemma_count_after_set(s, i, n - 1);
    }
}

impl View for VectorIndex {
    type V = Seq<(Seq<char>, Seq<i8>)>;

    closed spec fn view(&self) -> Seq<(Seq<char>, Seq<i8>)> {
        Seq::new(self.entries@.len(), |i: int| self.entries@[i]@)
    }
}

impl VectorIndex {
    /// The index is well formed: its embeddings share one dimension.
    pub open spec fn wf(&self) -> bool {
        uniform(self@)
    }

    /// Builds an index that holds `entries` in the order given.
    pub fn build(entries: Vec<IndexEntry>) -> (r: VectorIndex)
        requires
            uniform(entries@.map_values(|e: IndexEntry| e@)),
        ensures
            r.wf(),
            r@ == entries@.map_values(|e: IndexEntry| e@),
    {
        let r = VectorIndex { entries };
        assert(r@ =~= entries@.map_values(|e: IndexEntry| e@));
        r
    }

    /// Whether `entries` may be handed to `build`: their embeddings share
    /// one dimension, which is at most `MAX_DIMS`.
    pub fn buildable(entries: &Vec<IndexEntry>) -> (b: bool)
        ensures
            b == uniform(entries@.map_values(|e: IndexEntry| e@)),
    {
        let ghost view = entries@.map_values(|e: IndexEntry| e@);
        let n: usize = entries.len();
        if n == 0 {
            return true;
        }
        let d: usize = entries[0].embedding.len();
        assert(view[0] == entries@[0]@);
        if d > MAX_DIMS {
            return false;
        }
        let mut i: usize = 1;
        while i < n
            invariant
                n == entries.len(),
                view == entries@.map_values(|e: IndexEntry| e@),
                1 <= i <= n,
                d == dims_of(view),
                forall|j: int| 0 <= j < i ==> (#[trigger] view[j]).1.len() == d,
            decreases n - i,
        {
            assert(view[i as int] == entries@[i as int]@);
            if entries[i].embedding.len() != d {
                return false;
            }
            i = i + 1;
        }
        true
    }

    /// Number of entries.
    pub fn len(&self) -> (n: usize)
        ensures
            n == self@.len(),
    {
        self.entries.len()
    }

    /// Whether the index holds no entry.
    pub fn is_empty(&self) -> (b: bool)
        ensures
            b == (self@.len() == 0),
    {
        self.entries.len() == 0
    }

    /// The dimension of the stored embeddings; zero for an empty index.
    pub fn dims(&self) -> (d: usize)
        ensures
            d == dims_of(self@),
    {
        if self.entries.len() == 0 {
            0
        } else {
            self.entries[0].embedding.len()
        }
    }

    /// Whether `q` may be used to query this index.
    pub fn accepts(&self, q: &Vec<i8>) -> (b: bool)
        ensures
            b == comparable(self@, q@),
    {
        self.entries.len() == 0 || q.len() == self.entries[0].embedding.len()
    }

    /// Whether `entry` may be inserted into this index.
    pub fn admits(&self, entry: &IndexEntry) -> (b: bool)
        ensures
            b == fits(self@, entry@.1),
    {
        if self.entries.len() == 0 {
            entry.embedding.len() <= MAX_DIMS
        } else {
            entry.embedding.len() == self.entries[0].embedding.len()
        }
    }

    /// Appends one entry after those already stored.
    pub fn insert(&mut self, entry: IndexEntry)
        requires
            old(self).wf(),
            fits(old(self)@, entry@.1),
        ensures
            final(self).wf(),
            final(self)@ == old(self)@.push(entry@),
    {
        self.entries.push(entry);
        assert(self@ =~= old(self)@.push(entry@));
    }

    /// Returns the `k` entries most similar to `q`, most similar first;
    /// entries of equal score come in insertion order. With fewer than `k`
    /// entries, all are returned.
    pub fn query(&self, q: &Vec<i8>, k: usize) -> (r: Vec<Match>)
        requires
            self.wf(),
            comparable(self@, q@),
        ensures
            r.len() <= k,
            r.len() <= self@.len(),
            r.len() == k || r.len() == self@.len(),
            is_ranking(self@, q@, k as nat, ids_of(r@)),
            forall|i: int| 0 <= i < r.len() ==> {
                &&& (#[trigger] r[i]).text@ == self@[r[i].id as int].0
                &&& r[i].score.is_score_of(q@, self@[r[i].id as int].1)
            },
    {
        let n: usize = self.entries.len();
        let mut scores: Vec<Score> = Vec::new();
        let mut taken: Vec<bool> = Vec::new();
        let mut i: usize = 0;
        while i < n
            invariant
                n == self.entries.len(),
                self.wf(),
                comparable(self@, q@),
                i <= n,
                scores.len() == i,
                taken.len() == i,
                forall|j: int| 0 <= j < i ==> !taken[j],
                forall|j: int| 0 <= j < i ==> {
                    &&& (#[trigger] scores[j]).wf()
                    &&& scores[j].is_score_of(q@, self@[j].1)
                },
            decreases n - i,
        {
            assert(self@[i as int] == self.entries@[i as int]@);
            assert(self@[0] == self.entries@[0]@);
            let s: Score = Score::of(q, &self.entries[i].embedding);
            scores.push(s);
            taken.push(false);
            i = i + 1;
        }
        let limit: usize = if k <= n { k } else { n };
        let mut out: Vec<Match> = Vec::new();
        let mut t: usize = 0;
        proof {
            lemma_count_none_set(taken@, n as int);
        }
        while t < limit
            invariant
                n == self.entries.len(),
                n == self@.len(),
                limit <= n,
                t <= limit,
                out.len() == t,
                scores.len() == n,
                taken.len() == n,
                count_set(taken@, n as int) == t,
                forall|j: int| 0 <= j < n ==> {
                    &&& (#[trigger] scores[j]).wf()
                    &&& scores[j].is_score_of(q@, self@[j].1)
                },
                forall|i: int| 0 <= i < t ==> (#[trigger] out[i]).id < n && taken[out[i].id as int],
                forall|m: int| 0 <= m < n && #[trigger] taken[m] ==> exists|i: int|
                    0 <= i < t && (#[trigger] out[i]).id == m,
                forall|i: int, j: int| #![trigger out[i], out[j]]
                    0 <= i < j < t ==> precedes(self@, q@, out[i].id as int, out[j].id as int),
                forall|i: int, m: int| #![trigger out[i], taken[m]]
                    0 <= i < t && 0 <= m < n && !taken[m] ==> precedes(
                        self@,
                        q@,
                        out[i].id as int,
                        m,
                    ),
                forall|i: int| 0 <= i < t ==> {
                    &&& (#[trigger] out[i]).text@ == self@[out[i].id as int].0
                    &&& out[i].score.is_score_of(q@, self@[out[i].id as int].1)
                },
            decreases limit - t,
        {
            let mut best: usize = n;
            let mut j: usize = 0;
            while j < n
                invariant
                    n == self@.len(),
                    scores.len() == n,
                    taken.len() == n,
                    j <= n,
                    best <= n,
                    best < n ==> best < j && !taken[best as int],
                    best == n ==> forall|m: int| 0 <= m < j ==> taken[m],
                    forall|m: int| 0 <= m < n ==> {
                        &&& (#[trigger] scores[m]).wf()
                        &&& scores[m].is_score_of(q@, self@[m].1)
                    },
                    best < n ==> forall|m: int| #![trigger taken[m]]
                        0 <= m < j && !taken[m] && m != best ==> precedes(self@, q@, best as int, m),
                decreases n - j,
            {
                if !taken[j] {
                    if best == n {
                        best = j;
                    } else if scores[j].gt(&scores[best]) {
                        proof {
                            let sj = scores[j as int];
                            let sb = scores[best as int];
                            assert forall|m: int| #![trigger taken[m]]
                                0 <= m < j + 1 && !taken[m] && m != j implies precedes(
                                self@,
                                q@,
                                j as int,
                                m,
                            ) by {
                                let sm = scores[m];
                                if m != best {
                                    assert(precedes(self@, q@, best as int, m));
                                    lemma_frac_gt_ge(
                                        sj.num as int,
                                        sj.den as int,
                                        sb.num as int,
                                        sb.den as int,
                                        sm.num as int,
                                        sm.den as int,
                                    );
                                }
                            }
                        }
                        best = j;
                    }
                }
                j = j + 1;
            }
            proof {
                if best == n {
                    lemma_count_all_set(taken@, n as int);
                }
                lemma_count_after_set(taken@, best as int, n as int);
                assert(self@[best as int] == self.entries@[best as int]@);
            }
            let ghost before = taken@;
            let ghost prior = out@;
            let found = Match {
                id: best,
                text: self.entries[best].text.clone(),
                score: scores[best],
            };
            taken.set(best, true);
            out.push(found);
            t = t + 1;
            proof {
                assert(taken@ == before.update(best as int, true));
                assert(out@ == prior.push(found));
                assert forall|m: int| 0 <= m < n && #[trigger] taken[m] implies exists|i: int|
                    0 <= i < t && (#[trigger] out[i]).id == m by {
                    if m == best {
                        assert(out[t - 1].id == m);
                    } else {
                        assert(before[m]);
                        let w = choose|i: int| 0 <= i < t - 1 && (#[trigger] prior[i]).id == m;
                        assert(out[w].id == m);
                    }
                }
                assert forall|i: int, j: int| #![trigger out[i], out[j]]
                    0 <= i < j < t implies precedes(self@, q@, out[i].id as int, out[j].id as int) by {
                    if j == t - 1 {
                        assert(out[i] == prior[i]);
                        assert(!before[best as int]);
                    } else {
                        assert(out[i] == prior[i]);
                        assert(out[j] == prior[j]);
                    }
                }
                assert forall|i: int, m: int| #![trigger out[i], taken[m]]
                    0 <= i < t && 0 <= m < n && !taken[m] implies precedes(
                    self@,
                    q@,
                    out[i].id as int,
                    m,
                ) by {
                    assert(!before[m]);
                    if i < t - 1 {
                        assert(out[i] == prior[i]);
                    }
                }
            }
        }
        proof {
            let ids = ids_of(out@);
            assert forall|i: int, m: int| #![trigger precedes(self@, q@, ids[i], m)]
                0 <= i < ids.len() && 0 <= m < n && !ids.contains(m) implies precedes(
                self@,
                q@,
                ids[i],
                m,
            ) by {
                if taken[m] {
                    let w = choose|w: int| 0 <= w < t && (#[trigger] out[w]).id == m;
                    assert(ids[w] == m);
                }
                assert(ids[i] == out[i].id);
            }
            assert forall|i: int, j: int| #![trigger ids[i], ids[j]]
                0 <= i < j < ids.len() implies precedes(self@, q@, ids[i], ids[j]) by {
                assert(ids[i] == out[i].id);
                assert(ids[j] == out[j].id);
            }
        }
        out
    }
}

/// No entry ranks before itself, and of two entries at most one ranks
/// before the other.
pub proof fn lemma_precedes_strict(entries: Seq<(Seq<char>, Seq<i8>)>, q: Seq<i8>, a: int, b: int)
    ensures
        !precedes(entries, q, a, a),
        !(precedes(entries, q, a, b) && precedes(entries, q, b, a)),
{
}

/// A ranking never holds more than `k` entries nor more than the index
/// does, and is empty for `k == 0`.
pub proof fn lemma_ranking_bounded(entries: Seq<(Seq<char>, Seq<i8>)>, q: Seq<i8>, k: nat, r: Seq<int>)
    requires
        is_ranking(entries, q, k, r),
    ensures
        r.len() <= k,
        r.len() <= entries.len(),
        k == 0 ==> r.len() == 0,
        k >= entries.len() ==> r.len() == entries.len(),
{
}

/// In a ranking the scores never increase, and entries of equal score
/// stand in insertion order.
pub proof fn lemma_ranking_sorted(
    entries: Seq<(Seq<char>, Seq<i8>)>,
    q: Seq<i8>,
    k: nat,
    r: Seq<int>,
    i: int,
    j: int,
)
    requires
        is_ranking(entries, q, k, r),
        0 <= i < j < r.len(),
    ensures
        !frac_gt(
            score_num(q, entries[r[j]].1),
            score_den(q, entries[r[j]].1),
            score_num(q, entries[r[i]].1),
            score_den(q, entries[r[i]].1),
        ),
        frac_eq(
            score_num(q, entries[r[i]].1),
            score_den(q, entries[r[i]].1),
            score_num(q, entries[r[j]].1),
            score_den(q, entries[r[j]].1),
        ) ==> r[i] < r[j],
{
    assert(precedes(entries, q, r[i], r[j]));
}

/// No entry stands twice in a ranking.
pub proof fn lemma_ranking_distinct(
    entries: Seq<(Seq<char>, Seq<i8>)>,
    q: Seq<i8>,
    k: nat,
    r: Seq<int>,
    i: int,
    j: int,
)
    requires
        is_ranking(entries, q, k, r),
        0 <= i < j < r.len(),
    ensures
        r[i] != r[j],
{
    assert(precedes(entries, q, r[i], r[j]));
    lemma_precedes_strict(entries, q, r[i], r[j]);
}

proof fn lemma_ranking_next_precedes(
    entries: Seq<(Seq<char>, Seq<i8>)>,
    q: Seq<i8>,
    k: nat,
    r1: Seq<int>,
    r2: Seq<int>,
    p: int,
)
    requires
        is_ranking(entries, q, k, r1),
        is_ranking(entries, q, k, r2),
        0 <= p < r1.len(),
        forall|i: int| 0 <= i < p ==> r1[i] == r2[i],
        r1[p] != r2[p],
    ensures
        precedes(entries, q, r2[p], r1[p]),
{
    let a = r1[p];
    if r2.contains(a) {
        let j = choose|j: int| 0 <= j < r2.len() && r2[j] == a;
        if j < p {
            assert(r1[j] == r2[j]);
            lemma_ranking_distinct(entries, q, k, r1, j, p);
        } else {
            assert(precedes(entries, q, r2[p], r2[j]));
        }
    } else {
        assert(precedes(entries, q, r2[p], a));
    }
}

proof fn lemma_ranking_prefix_agrees(
    entries: Seq<(Seq<char>, Seq<i8>)>,
    q: Seq<i8>,
    k: nat,
    r1: Seq<int>,
    r2: Seq<int>,
    p: int,
)
    requires
        is_ranking(entries, q, k, r1),
        is_ranking(entries, q, k, r2),
        0 <= p <= r1.len(),
    ensures
        forall|i: int| 0 <= i < p ==> r1[i] == r2[i],
    decreases p,
{
    if p > 0 {
        lemma_ranking_prefix_agrees(entries, q, k, r1, r2, p - 1);
        if r1[p - 1] != r2[p - 1] {
            lemma_ranking_next_precedes(entries, q, k, r1, r2, p - 1);
            lemma_ranking_next_precedes(entries, q, k, r2, r1, p - 1);
            lemma_precedes_strict(entries, q, r1[p - 1], r2[p - 1]);
        }
    }
}

/// An index, a query and `k` have one ranking only: what `query` returns
/// is determined by its arguments.
pub proof fn lemma_ranking_unique(
    entries: Seq<(Seq<char>, Seq<i8>)>,
    q: Seq<i8>,
    k: nat,
    r1: Seq<int>,
    r2: Seq<int>,
)
    requires
        is_ranking(entries, q, k, r1),
        is_ranking(entries, q, k, r2),
    ensures
        r1 == r2,
{
    lemma_ranking_prefix_agrees(entries, q, k, r1, r2, r1.len() as int);
    assert(r1 =~= r2);
}

/// An index of one passage returns that passage first for every query and
/// every `k` above zero; so a document is the top match for its own
/// embedding.
pub proof fn lemma_single_entry_top(
    entries: Seq<(Seq<char>, Seq<i8>)>,
    q: Seq<i8>,
    k: nat,
    r: Seq<int>,
)
    requires
        entries.len() == 1,
        k >= 1,
        is_ranking(entries, q, k, r),
    ensures
        r == seq![0int],
        texts_at(entries, r) == seq![entries[0].0],
{
    assert(r[0] == 0);
    assert(r =~= seq![0int]);
    assert(texts_at(entries, r) =~= seq![entries[0].0]);
}

/// A passage stored under the very embedding that is queried is the top
/// match, unless an earlier entry is exactly as similar; and no entry
/// scores higher than it.
pub proof fn lemma_own_embedding_is_top(
    entries: Seq<(Seq<char>, Seq<i8>)>,
    q: Seq<i8>,
    k: nat,
    r: Seq<int>,
    a: int,
)
    requires
        uniform(entries),
        0 <= a < entries.len(),
        entries[a].1 == q,
        k >= 1,
        is_ranking(entries, q, k, r),
    ensures
        r.len() >= 1,
        r[0] == a || (r[0] < a && frac_eq(
            score_num(q, entries[r[0]].1),
            score_den(q, entries[r[0]].1),
            score_num(q, q),
            score_den(q, q),
        )),
        forall|m: int| 0 <= m < entries.len() ==> !frac_gt(
            score_num(q, (#[trigger] entries[m]).1),
            score_den(q, entries[m].1),
            score_num(q, q),
            score_den(q, q),
        ),
{
    assert forall|m: int| 0 <= m < entries.len() implies !frac_gt(
        score_num(q, (#[trigger] entries[m]).1),
        score_den(q, entries[m].1),
        score_num(q, q),
        score_den(q, q),
    ) by {
        assert(entries[a].1.len() == dims_of(entries));
        lemma_self_similarity_maximal(q, entries[m].1);
    }
    let top = r[0];
    if top != a {
        assert(entries[top].1.len() == dims_of(entries));
        if r.contains(a) {
            let j = choose|j: int| 0 <= j < r.len() && r[j] == a;
            assert(precedes(entries, q, r[0], r[j]));
        } else {
            assert(precedes(entries, q, r[0], a));
        }
    }
}

} // verus!
