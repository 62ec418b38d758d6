use vstd::prelude::*;

verus! {

/// Most sprites the vertex buffer holds in one frame.
pub const MAX_SPRITES: usize = 10_000;

/// Index `k` (0..6) of the two triangles of a quad whose corners are
/// numbered 0..4: triangles (0, 1, 2) and (0, 2, 3).
pub open spec fn quad_corner_spec(k: int) -> int {
    if k == 0 {
        0
    } else if k == 1 {
        1
    } else if k == 2 {
        2
    } else if k == 3 {
        0
    } else if k == 4 {
        2
    } else {
        3
    }
}

/// The corner of the quad at position `k` of its six indices.
pub fn quad_corner(k: u16) -> (r: u16)
    requires
        k < 6,
    ensures
        r == quad_corner_spec(k as int),
{
    if k == 0 {
        0
    } else if k == 1 {
        1
    } else if k == 2 {
        2
    } else if k == 3 {
        0
    } else if k == 4 {
        2
    } else {
        3
    }
}

/// The index buffer for `quads` quads: six indices per quad, quad `i`
/// using vertices `4 * i .. 4 * i + 4`; entry `j` is corner
/// `quad_corner_spec(j % 6)` of quad `j / 6`.
pub fn sprite_indices(quads: u16) -> (v: Vec<u16>)
    requires
        quads as int * 4 <= u16::MAX + 1 - 4,
    ensures
        v@.len() == 6 * quads,
        forall|j: int| 0 <= j < v@.len() ==> #[trigger] v@[j] == quad_corner_spec(j % 6) + 4 * (j / 6),
        forall|q: int| 0 <= q < quads ==> {
            &&& #[trigger] v@[6 * q] == 4 * q
            &&& v@[6 * q + 1] == 4 * q + 1
            &&& v@[6 * q + 2] == 4 * q + 2
            &&& v@[6 * q + 3] == 4 * q
            &&& v@[6 * q + 4] == 4 * q + 2
            &&& v@[6 * q + 5] == 4 * q + 3
        },
{
    let mut v: Vec<u16> = Vec::new();
    let mut i: u16 = 0;
    while i < quads
        invariant
            i <= quads,
            quads as int * 4 <= u16::MAX + 1 - 4,
            v@.len() == 6 * i,
            forall|j: int| 0 <= j < v@.len() ==> #[trigger] v@[j] == quad_corner_spec(j % 6) + 4 * (j / 6),
        decreases quads - i,
    {
        let mut k: u16 = 0;
        while k < 6
            invariant
                i < quads,
                quads as int * 4 <= u16::MAX + 1 - 4,
                k <= 6,
                v@.len() == 6 * i + k,
                forall|j: int| 0 <= j < v@.len() ==> #[trigger] v@[j] == quad_corner_spec(j % 6) + 4 * (j / 6),
            decreases 6 - k,
        {
            let c = quad_corner(k);
            v.push(c + i * 4);
            proof {
                let j = 6 * i + k;
                assert(j % 6 == k && j / 6 == i) by (nonlinear_arith)
                    requires
                        j == 6 * i + k,
                        0 <= k < 6,
                        i >= 0,
                ;
            }
            k = k + 1;
        }
        i = i + 1;
    }
    proof {
        assert forall|q: int| 0 <= q < quads implies {
            &&& #[trigger] v@[6 * q] == 4 * q
            &&& v@[6 * q + 1] == 4 * q + 1
            &&& v@[6 * q + 2] == 4 * q + 2
            &&& v@[6 * q + 3] == 4 * q
            &&& v@[6 * q + 4] == 4 * q + 2
            &&& v@[6 * q + 5] == 4 * q + 3
        } by {
            lemma_six_split(q, 0);
            lemma_six_split(q, 1);
            lemma_six_split(q, 2);
            lemma_six_split(q, 3);
            lemma_six_split(q, 4);
            lemma_six_split(q, 5);
            assert(v@[6 * q + 0] == quad_corner_spec((6 * q + 0) % 6) + 4 * ((6 * q + 0) / 6));
            assert(v@[6 * q + 1] == quad_corner_spec((6 * q + 1) % 6) + 4 * ((6 * q + 1) / 6));
            assert(v@[6 * q + 2] == quad_corner_spec((6 * q + 2) % 6) + 4 * ((6 * q + 2) / 6));
            assert(v@[6 * q + 3] == quad_corner_spec((6 * q + 3) % 6) + 4 * ((6 * q + 3) / 6));
            assert(v@[6 * q + 4] == quad_corner_spec((6 * q + 4) % 6) + 4 * ((6 * q + 4) / 6));
            assert(v@[6 * q + 5] == quad_corner_spec((6 * q + 5) % 6) + 4 * ((6 * q + 5) / 6));
        }
    }
    v
}

/// Position `6 * q + k` is corner `k` of quad `q`.
proof fn lemma_six_split(q: int, k: int)
    requires
        0 <= k < 6,
        q >= 0,
    ensures
        (6 * q + k) % 6 == k,
        (6 * q + k) / 6 == q,
{
    assert((6 * q + k) % 6 == k && (6 * q + k) / 6 == q) by (nonlinear_arith)
        requires
            0 <= k < 6,
            q >= 0,
    ;
}

/// One draw of a batch of sprite quads sharing a texture.
#[derive(Debug, Clone, Copy, PartialEq, Eq, Structural)]
pub struct DrawCall {
    /// Position of the batch in the list of batches.
    pub batch: usize,
    /// Where the batch's vertices start in the vertex buffer, in bytes.
    pub byte_offset: u64,
    /// Size of the batch's vertices, in bytes.
    pub byte_size: u64,
    /// Number of indices drawn: six per quad.
    pub index_count: u32,
}

/// Capacity of the vertex buffer in bytes: four vertices per sprite.
pub open spec fn vertex_capacity(vertex_bytes: u64) -> int {
    MAX_SPRITES * 4 * vertex_bytes
}

/// Bytes taken by the vertices of `quads` quads.
pub open spec fn batch_bytes(quads: usize, vertex_bytes: u64) -> int {
    quads * 4 * vertex_bytes
}

/// The draws of batches `i..` when the vertex buffer is filled up to
/// `offset`: a batch whose texture is not uploaded is skipped, the first
/// batch that no longer fits stops the frame, every other batch is drawn
/// right after the previous one.
pub open spec fn planned_draws(
    quads: Seq<usize>,
    uploaded: Seq<bool>,
    vertex_bytes: u64,
    i: int,
    offset: int,
) -> Seq<DrawCall>
    decreases quads.len() - i,
{
    if i >= quads.len() || i < 0 {
        Seq::empty()
    } else if !uploaded[i] {
        planned_draws(quads, uploaded, vertex_bytes, i + 1, offset)
    } else if offset + batch_bytes(quads[i], vertex_bytes) > vertex_capacity(vertex_bytes) {
        Seq::empty()
    } else {
        seq![DrawCall {
            batch: i as usize,
            byte_offset: offset as u64,
            byte_size: batch_bytes(quads[i], vertex_bytes) as u64,
            index_count: (quads[i] * 6) as u32,
        }] + planned_draws(
            quads,
            uploaded,
            vertex_bytes,
            i + 1,
            offset + batch_bytes(quads[i], vertex_bytes),
        )
    }
}

/// Plans the frame's draws: batch `i` has `quads[i]` quads of
/// `vertex_bytes`-byte vertices, and `uploaded[i]` tells whether its texture
/// is on the GPU (see [`planned_draws`]).
pub fn plan_draws(quads: &Vec<usize>, uploaded: &Vec<bool>, vertex_bytes: u64) -> (r: Vec<DrawCall>)
    requires
        uploaded@.len() == quads@.len(),
        vertex_bytes > 0,
        vertex_capacity(vertex_bytes) <= u64::MAX,
        forall|i: int| 0 <= i < quads@.len() ==> batch_bytes(#[trigger] quads@[i], vertex_bytes) <= u64::MAX,
    ensures
        r@ == planned_draws(quads@, uploaded@, vertex_bytes, 0, 0),
        forall|n: int| 0 <= n < r@.len() ==> uploaded@[(#[trigger] r@[n]).batch as int],
        forall|n: int| 0 <= n < r@.len() ==> (#[trigger] r@[n]).byte_offset + r@[n].byte_size
            <= vertex_capacity(vertex_bytes),
        forall|i: int| 0 <= i < quads@.len() && uploaded@[i] && !(#[trigger] draws_batch(r@, i))
            && (forall|j: int| 0 <= j < i && uploaded@[j] ==> draws_batch(r@, j)) ==>
            plan_end(r@, 0) + batch_bytes(quads@[i], vertex_bytes) > vertex_capacity(vertex_bytes),
        forall|i: int, j: int| 0 <= j < i < quads@.len() && uploaded@[j] && #[trigger] draws_batch(r@, i)
            ==> #[trigger] draws_batch(r@, j),
{
    let ghost q = quads@;
    let ghost up = uploaded@;
    let cap: u64 = (MAX_SPRITES as u64) * 4 * vertex_bytes;
    let mut r: Vec<DrawCall> = Vec::new();
    let mut offset: u64 = 0;
    let mut i: usize = 0;
    while i < quads.len()
        invariant_except_break
            q == quads@,
            up == uploaded@,
            up.len() == q.len(),
            cap == vertex_capacity(vertex_bytes),
            cap <= u64::MAX,
            vertex_bytes > 0,
            forall|k: int| 0 <= k < q.len() ==> batch_bytes(#[trigger] q[k], vertex_bytes) <= u64::MAX,
            i <= q.len(),
            offset <= cap,
            r@ + planned_draws(q, up, vertex_bytes, i as int, offset as int)
                == planned_draws(q, up, vertex_bytes, 0, 0),
        ensures
            r@ == planned_draws(q, up, vertex_bytes, 0, 0),
        decreases q.len() - i,
    {
        if !uploaded[i] {
            i = i + 1;
            continue;
        }
        let n = quads[i];
        assert(batch_bytes(n, vertex_bytes) <= u64::MAX);
        assert(n * 4 <= n * 4 * vertex_bytes) by (nonlinear_arith)
            requires
                vertex_bytes > 0,
        ;
        let byte_size: u64 = (n as u64) * 4 * vertex_bytes;
        if byte_size > cap - offset {
            assert(planned_draws(q, up, vertex_bytes, i as int, offset as int) =~= Seq::<DrawCall>::empty());
            assert(r@ + Seq::<DrawCall>::empty() =~= r@);
            break;
        }
        assert(n * 6 <= u32::MAX) by (nonlinear_arith)
            requires
                n * 4 * vertex_bytes <= 10_000 * 4 * vertex_bytes,
                vertex_bytes > 0,
        ;
        let call = DrawCall {
            batch: i,
            byte_offset: offset,
            byte_size,
            index_count: (n * 6) as u32,
        };
        let ghost before = r@;
        let ghost rest = planned_draws(q, up, vertex_bytes, i + 1, offset + byte_size);
        r.push(call);
        assert(before + (seq![call] + rest) =~= r@ + rest);
        offset = offset + byte_size;
        i = i + 1;
    }
    proof {
        if i >= q.len() {
            assert(planned_draws(q, up, vertex_bytes, i as int, offset as int) =~= Seq::<DrawCall>::empty());
            assert(r@ + Seq::<DrawCall>::empty() =~= r@);
        }
    }
    let total = quads.len();
    proof {
        assert(q.len() == total);
        lemma_planned_draws_fit(q, up, vertex_bytes, 0, 0);
        assert forall|i: int| 0 <= i < q.len() && up[i] && !(#[trigger] draws_batch(r@, i))
            && (forall|j: int| 0 <= j < i && up[j] ==> draws_batch(r@, j)) implies
            plan_end(r@, 0) + batch_bytes(q[i], vertex_bytes) > vertex_capacity(vertex_bytes) by {
            lemma_plan_complete(q, up, vertex_bytes, 0, 0, i);
        }
        assert forall|i: int, j: int| 0 <= j < i < q.len() && up[j] && #[trigger] draws_batch(r@, i)
            implies #[trigger] draws_batch(r@, j) by {
            lemma_plan_no_gaps(q, up, vertex_bytes, 0, 0, i, j);
        }
    }
    r
}

/// Each index of quad `j / 6` names one of that quad's own four vertices.
pub proof fn lemma_indices_stay_in_their_quad(j: int)
    requires
        0 <= j,
    ensures
        4 * (j / 6) <= quad_corner_spec(j % 6) + 4 * (j / 6) < 4 * (j / 6) + 4,
{
}

/// Every planned draw is of an uploaded batch, lies inside the vertex
/// buffer after the fill level it started from, and draws batches in
/// increasing order, each right where the previous one ended.
pub proof fn lemma_planned_draws_fit(
    quads: Seq<usize>,
    uploaded: Seq<bool>,
    vertex_bytes: u64,
    i: int,
    offset: int,
)
    requires
        uploaded.len() == quads.len(),
        quads.len() <= usize::MAX,
        0 <= i,
        0 <= offset <= vertex_capacity(vertex_bytes) <= u64::MAX,
        forall|k: int| 0 <= k < quads.len() ==> batch_bytes(#[trigger] quads[k], vertex_bytes) <= u64::MAX,
    ensures
        ({
            let d = planned_draws(quads, uploaded, vertex_bytes, i, offset);
            &&& forall|n: int| 0 <= n < d.len() ==> {
                &&& i <= (#[trigger] d[n]).batch < quads.len()
                &&& uploaded[d[n].batch as int]
                &&& d[n].byte_size == batch_bytes(quads[d[n].batch as int], vertex_bytes)
                &&& offset <= d[n].byte_offset
                &&& d[n].byte_offset + d[n].byte_size <= vertex_capacity(vertex_bytes)
            }
            &&& d.len() > 0 ==> d[0].byte_offset == offset
            &&& forall|n: int| 0 <= n < d.len() - 1 ==> {
                &&& (#[trigger] d[n]).batch < d[n + 1].batch
                &&& d[n + 1].byte_offset == d[n].byte_offset + d[n].byte_size
            }
        }),
    decreases quads.len() - i,
{
    if i < quads.len() {
        if !uploaded[i] {
            lemma_planned_draws_fit(quads, uploaded, vertex_bytes, i + 1, offset);
        } else if offset + batch_bytes(quads[i], vertex_bytes) <= vertex_capacity(vertex_bytes) {
            let size = batch_bytes(quads[i], vertex_bytes);
            lemma_planned_draws_fit(quads, uploaded, vertex_bytes, i + 1, offset + size);
            let rest = planned_draws(quads, uploaded, vertex_bytes, i + 1, offset + size);
            let d = planned_draws(quads, uploaded, vertex_bytes, i, offset);
            assert forall|n: int| 0 <= n < d.len() - 1 implies {
                &&& (#[trigger] d[n]).batch < d[n + 1].batch
                &&& d[n + 1].byte_offset == d[n].byte_offset + d[n].byte_size
            } by {
                if n > 0 {
                    assert(d[n] == rest[n - 1]);
                    assert(d[n + 1] == rest[n]);
                } else {
                    assert(d[1] == rest[0]);
                }
            }
            assert forall|n: int| 0 <= n < d.len() implies {
                &&& i <= (#[trigger] d[n]).batch < quads.len()
                &&& uploaded[d[n].batch as int]
                &&& d[n].byte_size == batch_bytes(quads[d[n].batch as int], vertex_bytes)
                &&& offset <= d[n].byte_offset
                &&& d[n].byte_offset + d[n].byte_size <= vertex_capacity(vertex_bytes)
            } by {
                if n > 0 {
                    assert(d[n] == rest[n - 1]);
                } else {
                    assert(d[0].batch == i && d[0].byte_offset == offset && d[0].byte_size == size);
                }
            }
        }
    }
}

/// Whether the ids strictly increase along `s` (so none repeats).
pub open spec fn strictly_increasing(s: Seq<u64>) -> bool {
    forall|a: int, b: int| 0 <= a < b < s.len() ==> s[a] < s[b]
}

/// The positions `i < n` with `ids[i] == id`, in increasing order.
pub open spec fn positions_of(ids: Seq<u64>, id: u64, n: int) -> Seq<usize>
    decreases n,
{
    if n <= 0 {
        Seq::empty()
    } else if ids[n - 1] == id {
        positions_of(ids, id, n - 1).push((n - 1) as usize)
    } else {
        positions_of(ids, id, n - 1)
    }
}

/// The first position of the increasing sequence `s` whose id is not below
/// `x` (the length of `s` if there is none).
fn lower_bound(s: &Vec<u64>, x: u64) -> (p: usize)
    requires
        strictly_increasing(s@),
    ensures
        p <= s@.len(),
        forall|k: int| 0 <= k < p ==> s@[k] < x,
        p < s@.len() ==> x <= s@[p as int],
{
    let mut p: usize = 0;
    while p < s.len() && s[p] < x
        invariant
            p <= s@.len(),
            forall|k: int| 0 <= k < p ==> s@[k] < x,
        decreases s.len() - p,
    {
        p = p + 1;
    }
    p
}

/// Groups sprites by spritesheet: `sheet_ids[i]` is the sheet of sprite
/// `i`. Returns the sheets that occur, in increasing id order, and for each
/// the positions of its sprites in increasing order.
pub fn sprite_batches(sheet_ids: &Vec<u64>) -> (r: (Vec<u64>, Vec<Vec<usize>>))
    ensures
        strictly_increasing(r.0@),
        forall|x: u64| r.0@.contains(x) <==> sheet_ids@.contains(x),
        r.1@.len() == r.0@.len(),
        forall|k: int| 0 <= k < r.1@.len() ==>
            #[trigger] r.1@[k]@ == positions_of(sheet_ids@, r.0@[k], sheet_ids@.len() as int),
        forall|k: int, a: int, b: int| 0 <= k < r.1@.len() && 0 <= a < b < r.1@[k]@.len() ==>
            #[trigger] r.1@[k]@[a] < #[trigger] r.1@[k]@[b],
        forall|k: int, i: usize| 0 <= k < r.1@.len() ==>
            (#[trigger] r.1@[k]@.contains(i) <==> (i < sheet_ids@.len() && sheet_ids@[i as int] == r.0@[k])),
{
    let n = sheet_ids.len();
    let mut keys: Vec<u64> = Vec::new();
    let mut i: usize = 0;
    while i < n
        invariant
            n == sheet_ids@.len(),
            i <= n,
            strictly_increasing(keys@),
            forall|x: u64| keys@.contains(x) <==> sheet_ids@.take(i as int).contains(x),
        decreases n - i,
    {
        let id = sheet_ids[i];
        let ghost before = keys@;
        let ghost seen = sheet_ids@.take(i as int);
        let ghost next = sheet_ids@.take(i + 1);
        assert(next =~= seen.push(id));
        assert(forall|x: u64| before.contains(x) <==> seen.contains(x));
        let p = lower_bound(&keys, id);
        if p < keys.len() && keys[p] == id {
            assert forall|x: u64| keys@.contains(x) <==> next.contains(x) by {
                if next.contains(x) {
                    let k = choose|k: int| 0 <= k < next.len() && next[k] == x;
                    if k < seen.len() {
                        assert(seen[k] == x);
                    } else {
                        assert(keys@[p as int] == x);
                    }
                }
                if keys@.contains(x) {
                    assert(seen.contains(x));
                    let k = choose|k: int| 0 <= k < seen.len() && seen[k] == x;
                    assert(next[k] == x);
                }
            }
        } else {
            keys.insert(p, id);
            assert(keys@ == before.insert(p as int, id));
            assert forall|a: int, b: int| 0 <= a < b < keys@.len() implies keys@[a] < keys@[b] by {
                if b < p {
                    assert(keys@[a] == before[a] && keys@[b] == before[b]);
                } else if b == p {
                    assert(keys@[a] == before[a]);
                } else if a < p {
                    assert(keys@[a] == before[a] && keys@[b] == before[b - 1]);
                    assert(before[b - 1] >= before[p as int]);
                } else if a == p {
                    assert(keys@[b] == before[b - 1]);
                    assert(before[b - 1] >= before[p as int]);
                } else {
                    assert(keys@[a] == before[a - 1] && keys@[b] == before[b - 1]);
                }
            }
            assert forall|x: u64| keys@.contains(x) <==> next.contains(x) by {
                if next.contains(x) {
                    let k = choose|k: int| 0 <= k < next.len() && next[k] == x;
                    if k < seen.len() {
                        assert(seen[k] == x);
                        assert(before.contains(x));
                        let m = choose|m: int| 0 <= m < before.len() && before[m] == x;
                        if m < p {
                            assert(keys@[m] == x);
                        } else {
                            assert(keys@[m + 1] == x);
                        }
                    } else {
                        assert(keys@[p as int] == x);
                    }
                }
                if keys@.contains(x) {
                    let m = choose|m: int| 0 <= m < keys@.len() && keys@[m] == x;
                    if m == p {
                        assert(next[i as int] == x);
                    } else {
                        if m < p {
                            assert(before[m] == x);
                        } else {
                            assert(before[m - 1] == x);
                        }
                        assert(before.contains(x));
                        assert(seen.contains(x));
                        let k = choose|k: int| 0 <= k < seen.len() && seen[k] == x;
                        assert(next[k] == x);
                    }
                }
            }
        }
        i = i + 1;
    }
    assert(sheet_ids@.take(n as int) =~= sheet_ids@);
    let mut members: Vec<Vec<usize>> = Vec::new();
    let mut k: usize = 0;
    while k < keys.len()
        invariant
            n == sheet_ids@.len(),
            k <= keys@.len(),
            members@.len() == k,
            forall|m: int| 0 <= m < k ==>
                #[trigger] members@[m]@ == positions_of(sheet_ids@, keys@[m], n as int),
        decreases keys.len() - k,
    {
        let key = keys[k];
        let mut group: Vec<usize> = Vec::new();
        let mut j: usize = 0;
        while j < n
            invariant
                n == sheet_ids@.len(),
                j <= n,
                group@ == positions_of(sheet_ids@, key, j as int),
            decreases n - j,
        {
            if sheet_ids[j] == key {
                group.push(j);
            }
            j = j + 1;
        }
        members.push(group);
        k = k + 1;
    }
    proof {
        assert forall|k: int, a: int, b: int| 0 <= k < members@.len() && 0 <= a < b < members@[k]@.len()
            implies #[trigger] members@[k]@[a] < #[trigger] members@[k]@[b] by {
            assert(members@[k]@ == positions_of(sheet_ids@, keys@[k], n as int));
            lemma_positions_of_increasing(sheet_ids@, keys@[k], n as int);
        }
        assert forall|k: int, i: usize| 0 <= k < members@.len() implies
            (#[trigger] members@[k]@.contains(i) <==> (i < sheet_ids@.len() && sheet_ids@[i as int] == keys@[k])) by {
            assert(members@[k]@ == positions_of(sheet_ids@, keys@[k], n as int));
            lemma_positions_of_members(sheet_ids@, keys@[k], n as int, i);
        }
    }
    (keys, members)
}

/// The positions listed for a sheet strictly increase, so no sprite is
/// listed twice, and all lie below `n`.
pub proof fn lemma_positions_of_increasing(ids: Seq<u64>, id: u64, n: int)
    requires
        n <= ids.len() <= usize::MAX,
    ensures
        forall|a: int, b: int| 0 <= a < b < positions_of(ids, id, n).len() ==>
            positions_of(ids, id, n)[a] < positions_of(ids, id, n)[b],
        forall|a: int| 0 <= a < positions_of(ids, id, n).len() ==> positions_of(ids, id, n)[a] < n,
    decreases n,
{
    if n > 0 {
        lemma_positions_of_increasing(ids, id, n - 1);
        let p = positions_of(ids, id, n - 1);
        let q = positions_of(ids, id, n);
        if ids[n - 1] == id {
            assert(q == p.push((n - 1) as usize));
            assert forall|a: int, b: int| 0 <= a < b < q.len() implies q[a] < q[b] by {
                if b < p.len() {
                    assert(q[a] == p[a] && q[b] == p[b]);
                } else {
                    assert(q[a] == p[a]);
                }
            }
            assert forall|a: int| 0 <= a < q.len() implies q[a] < n by {
                if a < p.len() {
                    assert(q[a] == p[a]);
                }
            }
        } else {
            assert(q == p);
        }
    }
}

/// Sprite `i` is in the batch of sheet `id` exactly when its sheet is `id`.
pub proof fn lemma_positions_of_members(ids: Seq<u64>, id: u64, n: int, i: usize)
    requires
        n <= ids.len() <= usize::MAX,
    ensures
        positions_of(ids, id, n).contains(i) <==> (i < n && ids[i as int] == id),
    decreases n,
{
    if n > 0 {
        lemma_positions_of_members(ids, id, n - 1, i);
        let p = positions_of(ids, id, n - 1);
        if ids[n - 1] == id {
            let q = p.push((n - 1) as usize);
            if q.contains(i) && i != n - 1 {
                let k = choose|k: int| 0 <= k < q.len() && q[k] == i;
                if k < p.len() {
                    assert(p[k] == i);
                }
            }
            if i == n - 1 {
                assert(q[p.len() as int] == i);
            }
            if p.contains(i) {
                let k = choose|k: int| 0 <= k < p.len() && p[k] == i;
                assert(q[k] == i);
            }
        }
    }
}

/// With batches in increasing sheet order (as [`sprite_batches`] returns
/// them), the frame draws its batches in increasing sheet order.
pub proof fn lemma_draws_in_sheet_order(
    sheets: Seq<u64>,
    quads: Seq<usize>,
    uploaded: Seq<bool>,
    vertex_bytes: u64,
)
    requires
        strictly_increasing(sheets),
        sheets.len() == quads.len(),
        uploaded.len() == quads.len(),
        quads.len() <= usize::MAX,
        vertex_capacity(vertex_bytes) <= u64::MAX,
        forall|k: int| 0 <= k < quads.len() ==> batch_bytes(#[trigger] quads[k], vertex_bytes) <= u64::MAX,
    ensures
        ({
            let d = planned_draws(quads, uploaded, vertex_bytes, 0, 0);
            forall|n: int| 0 <= n < d.len() - 1 ==>
                sheets[(#[trigger] d[n]).batch as int] < sheets[d[n + 1].batch as int]
        }),
{
    lemma_planned_draws_fit(quads, uploaded, vertex_bytes, 0, 0);
    let d = planned_draws(quads, uploaded, vertex_bytes, 0, 0);
    assert forall|n: int| 0 <= n < d.len() - 1 implies
        sheets[(#[trigger] d[n]).batch as int] < sheets[d[n + 1].batch as int] by {
        assert(d[n].batch < d[n + 1].batch);
        assert(d[n + 1].batch < quads.len());
    }
}

/// Whether the draws `d` include one of batch `i`.
pub open spec fn draws_batch(d: Seq<DrawCall>, i: int) -> bool {
    exists|n: int| 0 <= n < d.len() && d[n].batch == i
}

/// How far the draws `d`, started at byte `offset`, fill the vertex buffer.
pub open spec fn plan_end(d: Seq<DrawCall>, offset: int) -> int {
    if d.len() == 0 {
        offset
    } else {
        d.last().byte_offset + d.last().byte_size
    }
}

/// The sizes of batches whose texture is not uploaded never count: changing
/// such a batch's quad count leaves the plan as it is.
pub proof fn lemma_plan_ignores_unuploaded_sizes(
    quads: Seq<usize>,
    uploaded: Seq<bool>,
    vertex_bytes: u64,
    s: int,
    offset: int,
    k: int,
    x: usize,
)
    requires
        uploaded.len() == quads.len(),
        0 <= k < quads.len(),
        !uploaded[k],
    ensures
        planned_draws(quads.update(k, x), uploaded, vertex_bytes, s, offset)
            == planned_draws(quads, uploaded, vertex_bytes, s, offset),
    decreases quads.len() - s,
{
    let q2 = quads.update(k, x);
    if 0 <= s < quads.len() {
        if !uploaded[s] {
            lemma_plan_ignores_unuploaded_sizes(quads, uploaded, vertex_bytes, s + 1, offset, k, x);
        } else {
            assert(q2[s] == quads[s]);
            let size = batch_bytes(quads[s], vertex_bytes);
            lemma_plan_ignores_unuploaded_sizes(quads, uploaded, vertex_bytes, s + 1, offset + size, k, x);
        }
    }
}

/// Completeness of the plan: if every uploaded batch before the uploaded
/// batch `i` is drawn but `i` is not, then `i` did not fit after the draws
/// before it, and nothing after it is drawn.
pub proof fn lemma_plan_complete(
    quads: Seq<usize>,
    uploaded: Seq<bool>,
    vertex_bytes: u64,
    s: int,
    offset: int,
    i: int,
)
    requires
        uploaded.len() == quads.len(),
        quads.len() <= usize::MAX,
        0 <= s <= i < quads.len(),
        0 <= offset <= vertex_capacity(vertex_bytes) <= u64::MAX,
        forall|k: int| 0 <= k < quads.len() ==> batch_bytes(#[trigger] quads[k], vertex_bytes) <= u64::MAX,
        uploaded[i],
        !draws_batch(planned_draws(quads, uploaded, vertex_bytes, s, offset), i),
        forall|j: int| s <= j < i && uploaded[j] ==>
            draws_batch(planned_draws(quads, uploaded, vertex_bytes, s, offset), j),
    ensures
        plan_end(planned_draws(quads, uploaded, vertex_bytes, s, offset), offset)
            + batch_bytes(quads[i], vertex_bytes) > vertex_capacity(vertex_bytes),
        forall|n: int| 0 <= n < planned_draws(quads, uploaded, vertex_bytes, s, offset).len() ==>
            (#[trigger] planned_draws(quads, uploaded, vertex_bytes, s, offset)[n]).batch < i,
    decreases quads.len() - s,
{
    let d = planned_draws(quads, uploaded, vertex_bytes, s, offset);
    if !uploaded[s] {
        assert(s != i);
        lemma_plan_complete(quads, uploaded, vertex_bytes, s + 1, offset, i);
    } else {
        let size = batch_bytes(quads[s], vertex_bytes);
        if offset + size > vertex_capacity(vertex_bytes) {
            if s < i {
                assert(draws_batch(d, s));
            }
        } else {
            let r = planned_draws(quads, uploaded, vertex_bytes, s + 1, offset + size);
            assert(d == seq![d[0]] + r);
            assert(d[0].batch == s);
            if s == i {
                assert(draws_batch(d, i));
            }
            assert forall|j: int| s + 1 <= j < i && uploaded[j] implies draws_batch(r, j) by {
                assert(draws_batch(d, j));
                let n = choose|n: int| 0 <= n < d.len() && d[n].batch == j;
                assert(n != 0);
                assert(r[n - 1] == d[n]);
            }
            if draws_batch(r, i) {
                let m = choose|m: int| 0 <= m < r.len() && r[m].batch == i;
                assert(d[m + 1] == r[m]);
            }
            lemma_plan_complete(quads, uploaded, vertex_bytes, s + 1, offset + size, i);
            if r.len() == 0 {
                assert(d.last() == d[0]);
                assert(d[0].byte_offset == offset && d[0].byte_size == size);
            } else {
                assert(d.last() == r.last());
            }
            assert forall|n: int| 0 <= n < d.len() implies (#[trigger] d[n]).batch < i by {
                if n > 0 {
                    assert(d[n] == r[n - 1]);
                }
            }
        }
    }
}

/// The plan stops for good: when a batch is drawn, every uploaded batch
/// before it is drawn too.
pub proof fn lemma_plan_no_gaps(
    quads: Seq<usize>,
    uploaded: Seq<bool>,
    vertex_bytes: u64,
    s: int,
    offset: int,
    i: int,
    j: int,
)
    requires
        uploaded.len() == quads.len(),
        quads.len() <= usize::MAX,
        0 <= s <= j < i < quads.len(),
        uploaded[j],
        draws_batch(planned_draws(quads, uploaded, vertex_bytes, s, offset), i),
    ensures
        draws_batch(planned_draws(quads, uploaded, vertex_bytes, s, offset), j),
    decreases quads.len() - s,
{
    let d = planned_draws(quads, uploaded, vertex_bytes, s, offset);
    if !uploaded[s] {
        lemma_plan_no_gaps(quads, uploaded, vertex_bytes, s + 1, offset, i, j);
    } else {
        let size = batch_bytes(quads[s], vertex_bytes);
        if offset + size <= vertex_capacity(vertex_bytes) {
            let r = planned_draws(quads, uploaded, vertex_bytes, s + 1, offset + size);
            assert(d == seq![d[0]] + r);
            assert(d[0].batch == s);
            if j == s {
                assert(d[0].batch == j);
            } else {
                let n = choose|n: int| 0 <= n < d.len() && d[n].batch == i;
                assert(n != 0);
                assert(r[n - 1] == d[n]);
                lemma_plan_no_gaps(quads, uploaded, vertex_bytes, s + 1, offset + size, i, j);
                let m = choose|m: int| 0 <= m < r.len() && r[m].batch == j;
                assert(d[m + 1] == r[m]);
            }
        }
    }
}

} // verus!
