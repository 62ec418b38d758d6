use hecs::Entity;
use vstd::prelude::*;

verus! {

/// An entity of the ECS world, carried through by value.
#[verifier::external_type_specification]
#[verifier::external_body]
pub struct ExEntity(hecs::Entity);

/// The pairs `(ids[i], ids[k])` for `k` in `j..ids.len()` whose overlap flag
/// `ov[i][k]` is set, in increasing `k`.
pub open spec fn row_pairs<T>(ids: Seq<T>, ov: Seq<Seq<bool>>, i: int, j: int) -> Seq<(T, T)>
    decreases ids.len() - j,
{
    if j >= ids.len() {
        Seq::empty()
    } else if ov[i][j] {
        seq![(ids[i], ids[j])] + row_pairs(ids, ov, i, j + 1)
    } else {
        row_pairs(ids, ov, i, j + 1)
    }
}

/// Every pair `(ids[a], ids[b])` with `i <= a < b` whose overlap flag
/// `ov[a][b]` is set, in lexicographic order of `(a, b)`.
pub open spec fn overlap_pairs<T>(ids: Seq<T>, ov: Seq<Seq<bool>>, i: int) -> Seq<(T, T)>
    decreases ids.len() - i,
{
    if i >= ids.len() {
        Seq::empty()
    } else {
        row_pairs(ids, ov, i, i + 1) + overlap_pairs(ids, ov, i + 1)
    }
}

/// A pair is in a row exactly when some later index of that row overlaps.
pub proof fn lemma_row_pairs_members<T>(ids: Seq<T>, ov: Seq<Seq<bool>>, i: int, j: int, p: (T, T))
    ensures
        row_pairs(ids, ov, i, j).contains(p) <==> exists|k: int|
            j <= k < ids.len() && #[trigger] ov[i][k] && p == (ids[i], ids[k]),
    decreases ids.len() - j,
{
    if j < ids.len() {
        lemma_row_pairs_members(ids, ov, i, j + 1, p);
        let rest = row_pairs(ids, ov, i, j + 1);
        if ov[i][j] {
            let head = seq![(ids[i], ids[j])];
            assert(row_pairs(ids, ov, i, j) == head + rest);
            if rest.contains(p) {
                let n = choose|n: int| 0 <= n < rest.len() && rest[n] == p;
                assert((head + rest)[n + 1] == p);
            }
            if p == (ids[i], ids[j]) {
                assert((head + rest)[0] == p);
            }
            if (head + rest).contains(p) {
                let n = choose|n: int| 0 <= n < (head + rest).len() && (head + rest)[n] == p;
                if n > 0 {
                    assert(rest[n - 1] == p);
                }
            }
        }
    }
}

/// The reported pairs are exactly the pairs of distinct positions `a < b`
/// (from `i` on) whose overlap flag is set: every overlapping pair is
/// reported, and nothing else is.
pub proof fn lemma_overlap_pairs_members<T>(ids: Seq<T>, ov: Seq<Seq<bool>>, i: int, p: (T, T))
    requires
        0 <= i,
    ensures
        overlap_pairs(ids, ov, i).contains(p) <==> exists|a: int, b: int|
            i <= a < b < ids.len() && #[trigger] ov[a][b] && p == (ids[a], ids[b]),
    decreases ids.len() - i,
{
    if i < ids.len() {
        lemma_overlap_pairs_members(ids, ov, i + 1, p);
        lemma_row_pairs_members(ids, ov, i, i + 1, p);
        let row = row_pairs(ids, ov, i, i + 1);
        let rest = overlap_pairs(ids, ov, i + 1);
        let all = row + rest;
        assert(overlap_pairs(ids, ov, i) == all);
        if row.contains(p) {
            let n = choose|n: int| 0 <= n < row.len() && row[n] == p;
            assert(all[n] == p);
            let k = choose|k: int| i + 1 <= k < ids.len() && #[trigger] ov[i][k] && p == (ids[i], ids[k]);
            assert(i <= i < k < ids.len() && ov[i][k]);
        }
        if rest.contains(p) {
            let n = choose|n: int| 0 <= n < rest.len() && rest[n] == p;
            assert(all[row.len() + n] == p);
            let (a, b) = choose|a: int, b: int|
                i + 1 <= a < b < ids.len() && #[trigger] ov[a][b] && p == (ids[a], ids[b]);
            assert(i <= a < b < ids.len() && ov[a][b]);
        }
        if all.contains(p) {
            let n = choose|n: int| 0 <= n < all.len() && all[n] == p;
            if n < row.len() {
                assert(row[n] == p);
            } else {
                assert(rest[n - row.len()] == p);
            }
        }
        if exists|a: int, b: int| i <= a < b < ids.len() && #[trigger] ov[a][b] && p == (ids[a], ids[b]) {
            let (a, b) = choose|a: int, b: int|
                i <= a < b < ids.len() && #[trigger] ov[a][b] && p == (ids[a], ids[b]);
            if a == i {
                assert(row.contains(p));
            } else {
                assert(rest.contains(p));
            }
        }
    }
}

/// No pair is reported twice within a row when the ids are distinct.
proof fn lemma_row_pairs_no_dup<T>(ids: Seq<T>, ov: Seq<Seq<bool>>, i: int, j: int)
    requires
        ids.no_duplicates(),
        0 <= i < ids.len(),
        0 <= j,
    ensures
        row_pairs(ids, ov, i, j).no_duplicates(),
    decreases ids.len() - j,
{
    if j < ids.len() {
        lemma_row_pairs_no_dup(ids, ov, i, j + 1);
        if ov[i][j] {
            let h = (ids[i], ids[j]);
            let head = seq![h];
            let rest = row_pairs(ids, ov, i, j + 1);
            assert forall|x: int, y: int| 0 <= x < head.len() && 0 <= y < rest.len() implies head[x] != rest[y] by {
                lemma_row_pairs_members(ids, ov, i, j + 1, rest[y]);
                assert(rest.contains(rest[y]));
                assert(exists|k: int| j + 1 <= k < ids.len() && #[trigger] ov[i][k] && rest[y] == (ids[i], ids[k]));
                let k = choose|k: int| j + 1 <= k < ids.len() && #[trigger] ov[i][k] && rest[y] == (ids[i], ids[k]);
                assert(0 <= j < k < ids.len());
                assert(ids[k] != ids[j]);
                assert(rest[y].1 == ids[k]);
            }
            vstd::seq_lib::lemma_no_dup_in_concat(head, rest);
            assert(row_pairs(ids, ov, i, j) == head + rest);
        }
    }
}

/// With distinct entities no pair is reported twice: the recorded pairs
/// have no duplicates.
pub proof fn lemma_overlap_pairs_no_dup<T>(ids: Seq<T>, ov: Seq<Seq<bool>>, i: int)
    requires
        ids.no_duplicates(),
        0 <= i,
    ensures
        overlap_pairs(ids, ov, i).no_duplicates(),
    decreases ids.len() - i,
{
    if i < ids.len() {
        lemma_overlap_pairs_no_dup(ids, ov, i + 1);
        lemma_row_pairs_no_dup(ids, ov, i, i + 1);
        let row = row_pairs(ids, ov, i, i + 1);
        let rest = overlap_pairs(ids, ov, i + 1);
        assert forall|x: int, y: int| 0 <= x < row.len() && 0 <= y < rest.len() implies row[x] != rest[y] by {
            lemma_row_pairs_members(ids, ov, i, i + 1, row[x]);
            assert(row.contains(row[x]));
            lemma_overlap_pairs_members(ids, ov, i + 1, rest[y]);
            assert(rest.contains(rest[y]));
            let (a, b) = choose|a: int, b: int|
                i + 1 <= a < b < ids.len() && #[trigger] ov[a][b] && rest[y] == (ids[a], ids[b]);
            assert(ids[a] != ids[i]);
        }
        vstd::seq_lib::lemma_no_dup_in_concat(row, rest);
    }
}

/// The positions `0, 1, .., n - 1`.
pub open spec fn index_seq(n: int) -> Seq<int> {
    Seq::new(n as nat, |k: int| k)
}

/// The pairs of an id sequence are the pairs of positions `(a, b)` recorded
/// for the same flags, each mapped to its ids: the recording does not depend
/// on which ids the entities have.
proof fn lemma_row_pairs_by_index<T>(ids: Seq<T>, ov: Seq<Seq<bool>>, i: int, j: int)
    requires
        0 <= i < ids.len(),
        0 <= j,
    ensures
        row_pairs(ids, ov, i, j) == row_pairs(index_seq(ids.len() as int), ov, i, j).map_values(
            |p: (int, int)| (ids[p.0], ids[p.1]),
        ),
    decreases ids.len() - j,
{
    let f = |p: (int, int)| (ids[p.0], ids[p.1]);
    let idx = index_seq(ids.len() as int);
    if j < ids.len() {
        lemma_row_pairs_by_index(ids, ov, i, j + 1);
        let r = row_pairs(idx, ov, i, j + 1);
        if ov[i][j] {
            assert(row_pairs(idx, ov, i, j) == seq![(idx[i], idx[j])] + r);
            assert((seq![(idx[i], idx[j])] + r).map_values(f) =~= seq![(ids[i], ids[j])] + r.map_values(f));
        }
    } else {
        assert(row_pairs(idx, ov, i, j).map_values(f) =~= Seq::<(T, T)>::empty());
    }
}

/// The recorded pairs are the recorded pairs of positions, mapped to their
/// entities. With [`lemma_overlap_pairs_no_dup`] on the distinct positions
/// and [`lemma_overlap_pairs_members`], each flagged pair of positions
/// `a < b` yields exactly one recorded pair, whatever the ids.
pub proof fn lemma_overlap_pairs_by_index<T>(ids: Seq<T>, ov: Seq<Seq<bool>>, i: int)
    requires
        0 <= i,
    ensures
        overlap_pairs(ids, ov, i) == overlap_pairs(index_seq(ids.len() as int), ov, i).map_values(
            |p: (int, int)| (ids[p.0], ids[p.1]),
        ),
        overlap_pairs(index_seq(ids.len() as int), ov, i).no_duplicates(),
    decreases ids.len() - i,
{
    let f = |p: (int, int)| (ids[p.0], ids[p.1]);
    let idx = index_seq(ids.len() as int);
    assert(idx.no_duplicates());
    lemma_overlap_pairs_no_dup(idx, ov, i);
    if i < ids.len() {
        lemma_overlap_pairs_by_index(ids, ov, i + 1);
        lemma_row_pairs_by_index(ids, ov, i, i + 1);
        let row = row_pairs(idx, ov, i, i + 1);
        let rest = overlap_pairs(idx, ov, i + 1);
        assert((row + rest).map_values(f) =~= row.map_values(f) + rest.map_values(f));
    } else {
        assert(overlap_pairs(idx, ov, i).map_values(f) =~= Seq::<(T, T)>::empty());
    }
}

/// The pairs of entities whose colliders overlap, written each fixed step.
#[derive(Debug)]
pub struct CollisionEvents {
    pub pairs: Vec<(Entity, Entity)>,
}

impl CollisionEvents {
    /// Removes every recorded pair.
    pub fn clear(&mut self)
        ensures
            final(self).pairs@ == Seq::<(Entity, Entity)>::empty(),
    {
        self.pairs.clear();
    }

    /// Replaces the recorded pairs by every pair `(entities[a], entities[b])`
    /// with `a < b` whose flag `overlaps[a][b]` is set, in lexicographic
    /// order of `(a, b)`.
    pub fn record_overlaps(&mut self, entities: &Vec<Entity>, overlaps: &Vec<Vec<bool>>)
        requires
            overlaps@.len() == entities@.len(),
            forall|a: int| 0 <= a < overlaps@.len() ==> #[trigger] overlaps@[a]@.len() == entities@.len(),
        ensures
            final(self).pairs@ == overlap_pairs(entities@, overlaps.deep_view(), 0),
            entities@.no_duplicates() ==> final(self).pairs@.no_duplicates(),
            forall|p: (Entity, Entity)| #[trigger] final(self).pairs@.contains(p) <==> exists|a: int, b: int|
                0 <= a < b < entities@.len() && #[trigger] overlaps@[a]@[b] && p == (entities@[a], entities@[b]),
    {
        self.clear();
        let n = entities.len();
        let ghost ov = overlaps.deep_view();
        let mut i: usize = 0;
        while i < n
            invariant
                n == entities@.len(),
                overlaps@.len() == n,
                forall|a: int| 0 <= a < n ==> #[trigger] overlaps@[a]@.len() == n,
                ov == overlaps.deep_view(),
                i <= n,
                self.pairs@ + overlap_pairs(entities@, ov, i as int) == overlap_pairs(entities@, ov, 0),
            decreases n - i,
        {
            let mut j: usize = i + 1;
            assert(overlap_pairs(entities@, ov, i as int)
                == row_pairs(entities@, ov, i as int, j as int) + overlap_pairs(entities@, ov, i + 1));
            while j < n
                invariant
                    n == entities@.len(),
                    overlaps@.len() == n,
                    forall|a: int| 0 <= a < n ==> #[trigger] overlaps@[a]@.len() == n,
                    ov == overlaps.deep_view(),
                    i < n,
                    i < j <= n,
                    self.pairs@ + (row_pairs(entities@, ov, i as int, j as int) + overlap_pairs(entities@, ov, i + 1))
                        == overlap_pairs(entities@, ov, 0),
                decreases n - j,
            {
                let ghost before = self.pairs@;
                let ghost rest = row_pairs(entities@, ov, i as int, j + 1) + overlap_pairs(entities@, ov, i + 1);
                assert(ov[i as int][j as int] == overlaps@[i as int]@[j as int]);
                if overlaps[i][j] {
                    self.pairs.push((entities[i], entities[j]));
                    assert(before + (seq![(entities@[i as int], entities@[j as int])] + rest)
                        =~= self.pairs@ + rest);
                } else {
                    assert(self.pairs@ == before);
                }
                j = j + 1;
            }
            assert(row_pairs(entities@, ov, i as int, n as int) =~= Seq::<(Entity, Entity)>::empty());
            assert(self.pairs@ + (Seq::<(Entity, Entity)>::empty() + overlap_pairs(entities@, ov, i + 1))
                =~= self.pairs@ + overlap_pairs(entities@, ov, i + 1));
            i = i + 1;
        }
        assert(overlap_pairs(entities@, ov, n as int) =~= Seq::<(Entity, Entity)>::empty());
        assert(self.pairs@ + Seq::<(Entity, Entity)>::empty() =~= self.pairs@);
        proof {
            if entities@.no_duplicates() {
                lemma_overlap_pairs_no_dup(entities@, ov, 0);
            }
            assert forall|p: (Entity, Entity)| #[trigger] self.pairs@.contains(p) <==> exists|a: int, b: int|
                0 <= a < b < entities@.len() && #[trigger] overlaps@[a]@[b] && p == (entities@[a], entities@[b]) by {
                lemma_overlap_pairs_members(entities@, ov, 0, p);
                if exists|a: int, b: int| 0 <= a < b < entities@.len() && #[trigger] ov[a][b] && p == (entities@[a], entities@[b]) {
                    let (a, b) = choose|a: int, b: int| 0 <= a < b < entities@.len() && #[trigger] ov[a][b] && p == (entities@[a], entities@[b]);
                    assert(overlaps@[a]@[b] == ov[a][b]);
                }
                if exists|a: int, b: int| 0 <= a < b < entities@.len() && #[trigger] overlaps@[a]@[b] && p == (entities@[a], entities@[b]) {
                    let (a, b) = choose|a: int, b: int| 0 <= a < b < entities@.len() && #[trigger] overlaps@[a]@[b] && p == (entities@[a], entities@[b]);
                    assert(overlaps@[a]@[b] == ov[a][b]);
                }
            }
        }
    }
}

impl Default for CollisionEvents {
    fn default() -> (s: Self)
        ensures
            s.pairs@ == Seq::<(Entity, Entity)>::empty(),
    {
        CollisionEvents { pairs: Vec::new() }
    }
}

} // verus!
