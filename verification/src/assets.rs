use std::collections::HashMap;
use std::marker::PhantomData;
use vstd::prelude::*;
use vstd::hash_map::StringHashMap;
use vstd::std_specs::cmp::PartialEqSpec;
use crate::ecs::components::SpriteSheet;

verus! {

broadcast use vstd::std_specs::hash::group_hash_axioms;

/// A typed, cheap-to-copy identifier of an asset held by an [`AssetServer`].
#[derive(Debug, Eq, Hash)]
pub struct Handle<T> {
    pub(crate) id: u64,
    _marker: PhantomData<T>,
}

impl<T> View for Handle<T> {
    type V = u64;

    /// A handle is its numeric id.
    closed spec fn view(&self) -> u64 {
        self.id
    }
}

impl<T> Clone for Handle<T> {
    /// A copy of the handle, with the same id.
    fn clone(&self) -> (h: Self)
        ensures
            h@ == self@,
    {
        Handle::new(self.id)
    }
}

impl<T> PartialEq for Handle<T> {
    /// Handles are equal when their ids are.
    fn eq(&self, other: &Self) -> (r: bool) {
        self.id == other.id
    }
}

impl<T> vstd::std_specs::cmp::PartialEqSpecImpl for Handle<T> {
    open spec fn obeys_eq_spec() -> bool {
        true
    }

    open spec fn eq_spec(&self, other: &Self) -> bool {
        self@ == other@
    }
}

/// Two handles compare equal exactly when their ids are equal, and a clone
/// keeps the id.
pub proof fn lemma_handle_eq<T>(h1: Handle<T>, h2: Handle<T>)
    ensures
        h1.eq_spec(&h2) <==> h1@ == h2@,
{
}

impl<T> Handle<T> {
    /// Builds the handle with the given id.
    pub fn new(id: u64) -> (h: Self)
        ensures
            h@ == id,
    {
        Handle { id, _marker: PhantomData }
    }

    /// The handle's numeric id.
    pub fn id(&self) -> (r: u64)
        ensures
            r == self@,
    {
        self.id
    }
}

/// The abstract state of an [`AssetServer`].
pub struct AssetView {
    /// The id registered for each path.
    pub paths: Map<Seq<char>, u64>,
    /// The spritesheet stored under each id.
    pub sheets: Map<u64, SpriteSheet>,
    /// The id that the next new path receives.
    pub next_id: u64,
}

impl AssetView {
    /// The state of a registry nothing was loaded into.
    pub open spec fn empty() -> AssetView {
        AssetView { paths: Map::empty(), sheets: Map::empty(), next_id: 0 }
    }

    /// The state after loading each `(path, sheet)` of `ops` in turn.
    pub open spec fn replay(self, ops: Seq<(Seq<char>, SpriteSheet)>) -> AssetView
        decreases ops.len(),
    {
        if ops.len() == 0 {
            self
        } else {
            self.replay(ops.drop_last()).load(ops.last().0, ops.last().1)
        }
    }

    /// Well-formedness: every registered id is below `next_id` and has a
    /// sheet, distinct paths have distinct ids, and no sheet is stored under
    /// an id that has not been handed out yet.
    pub open spec fn wf(self) -> bool {
        &&& forall|p: Seq<char>| #[trigger] self.paths.contains_key(p) ==> {
            &&& self.paths[p] < self.next_id
            &&& self.sheets.contains_key(self.paths[p])
        }
        &&& forall|p: Seq<char>, q: Seq<char>|
            #[trigger] self.paths.contains_key(p) && #[trigger] self.paths.contains_key(q) && p != q
                ==> self.paths[p] != self.paths[q]
        &&& forall|id: u64| #[trigger] self.sheets.contains_key(id) ==> id < self.next_id
    }

    /// The state after loading `sheet` under `path`.
    pub open spec fn load(self, path: Seq<char>, sheet: SpriteSheet) -> AssetView {
        if self.paths.contains_key(path) {
            self
        } else {
            AssetView {
                paths: self.paths.insert(path, self.next_id),
                sheets: self.sheets.insert(self.next_id, sheet),
                next_id: (self.next_id + 1) as u64,
            }
        }
    }

    /// The id of the handle that loading `path` returns.
    pub open spec fn load_id(self, path: Seq<char>) -> u64 {
        if self.paths.contains_key(path) {
            self.paths[path]
        } else {
            self.next_id
        }
    }

    /// Whether loading `path` can go ahead without the id counter overflowing.
    pub open spec fn can_load(self, path: Seq<char>) -> bool {
        self.paths.contains_key(path) || self.next_id < u64::MAX
    }
}

/// Loading keeps the registry well formed.
pub proof fn lemma_load_preserves_wf(v: AssetView, path: Seq<char>, sheet: SpriteSheet)
    requires
        v.wf(),
        v.can_load(path),
    ensures
        v.load(path, sheet).wf(),
{
    let n = v.load(path, sheet);
    if !v.paths.contains_key(path) {
        assert forall|p: Seq<char>, q: Seq<char>|
            #[trigger] n.paths.contains_key(p) && #[trigger] n.paths.contains_key(q) && p != q
            implies n.paths[p] != n.paths[q] by {
            if p != path && q != path {
                assert(v.paths.contains_key(p) && v.paths.contains_key(q));
            } else if p == path {
                assert(v.paths.contains_key(q));
            } else {
                assert(v.paths.contains_key(p));
            }
        }
    }
}

/// The same path always yields the same handle, and loading a path a second
/// time changes nothing.
pub proof fn lemma_same_path_same_handle(
    v: AssetView,
    path: Seq<char>,
    first: SpriteSheet,
    second: SpriteSheet,
)
    requires
        v.wf(),
        v.can_load(path),
    ensures
        v.load(path, first).load_id(path) == v.load_id(path),
        v.load(path, first).load(path, second) == v.load(path, first),
{
}

/// Different paths yield different handles.
pub proof fn lemma_different_paths_different_handles(
    v: AssetView,
    p: Seq<char>,
    q: Seq<char>,
    s: SpriteSheet,
    t: SpriteSheet,
)
    requires
        v.wf(),
        v.can_load(p),
        v.load(p, s).can_load(q),
        p != q,
    ensures
        v.load(p, s).load_id(q) != v.load_id(p),
{
    lemma_load_preserves_wf(v, p, s);
    let w = v.load(p, s);
    assert(w.paths.contains_key(p));
    if w.paths.contains_key(q) {
        assert(w.paths[q] != w.paths[p]);
    }
}

/// After loading, the handle's sheet is the one stored first under that path:
/// the new sheet for a new path, the earlier sheet for a known path.
pub proof fn lemma_load_keeps_first_sheet(v: AssetView, path: Seq<char>, sheet: SpriteSheet)
    requires
        v.wf(),
        v.can_load(path),
    ensures
        v.load(path, sheet).sheets.contains_key(v.load_id(path)),
        v.load(path, sheet).sheets[v.load_id(path)] == (if v.paths.contains_key(path) {
            v.sheets[v.paths[path]]
        } else {
            sheet
        }),
{
}

/// Loading one path leaves every other registered path, and the sheet stored
/// under it, untouched.
pub proof fn lemma_load_keeps_other_handles(
    v: AssetView,
    path: Seq<char>,
    sheet: SpriteSheet,
    other: Seq<char>,
)
    requires
        v.wf(),
        v.can_load(path),
        v.paths.contains_key(other),
    ensures
        v.load(path, sheet).paths.contains_key(other),
        v.load(path, sheet).paths[other] == v.paths[other],
        v.load(path, sheet).sheets[v.paths[other]] == v.sheets[v.paths[other]],
{
}

/// The id of the handle that the `i`-th load of `ops` returns, on a registry
/// that started empty.
pub open spec fn handle_of(ops: Seq<(Seq<char>, SpriteSheet)>, i: int) -> u64 {
    AssetView::empty().replay(ops.take(i)).load_id(ops[i].0)
}

/// The first loads of a history are a history of their own.
proof fn lemma_handle_of_prefix(ops: Seq<(Seq<char>, SpriteSheet)>, i: int)
    requires
        0 <= i < ops.len() - 1,
    ensures
        handle_of(ops, i) == handle_of(ops.drop_last(), i),
{
    assert(ops.take(i) =~= ops.drop_last().take(i));
}

/// What a registry holds after any history of loads: it is well formed, has
/// handed out at most one id per load, knows exactly the loaded paths, keeps
/// for each path the handle its loads returned and the sheet of its first
/// load, and holds sheets only under handed-out ids.
pub proof fn lemma_replay(ops: Seq<(Seq<char>, SpriteSheet)>)
    requires
        ops.len() < u64::MAX,
    ensures
        ({
            let v = AssetView::empty().replay(ops);
            &&& v.wf()
            &&& v.next_id <= ops.len()
            &&& forall|i: int| 0 <= i < ops.len() ==>
                AssetView::empty().replay(#[trigger] ops.take(i)).can_load(ops[i].0)
            &&& forall|i: int| 0 <= i < ops.len() ==> #[trigger] v.paths.contains_key(ops[i].0)
            &&& forall|i: int| 0 <= i < ops.len() ==> v.paths[ops[i].0] == #[trigger] handle_of(ops, i)
            &&& forall|p: Seq<char>| #[trigger] v.paths.contains_key(p) ==>
                exists|i: int| 0 <= i < ops.len() && ops[i].0 == p
            &&& forall|f: int| 0 <= f < ops.len() && (forall|k: int| 0 <= k < f ==> ops[k].0 != ops[f].0)
                ==> v.sheets[#[trigger] handle_of(ops, f)] == ops[f].1
            &&& forall|id: u64| #[trigger] v.sheets.contains_key(id) ==>
                exists|i: int| 0 <= i < ops.len() && handle_of(ops, i) == id
        }),
    decreases ops.len(),
{
    let e = AssetView::empty();
    if ops.len() > 0 {
        let n = ops.len() - 1;
        let init = ops.drop_last();
        lemma_replay(init);
        let w = e.replay(init);
        let v = e.replay(ops);
        let p = ops.last().0;
        let s = ops.last().1;
        assert(v == w.load(p, s));
        assert(ops.take(n) =~= init);
        assert(handle_of(ops, n) == w.load_id(p));
        lemma_load_preserves_wf(w, p, s);
        assert forall|i: int| 0 <= i < ops.len() implies
            e.replay(#[trigger] ops.take(i)).can_load(ops[i].0) by {
            if i < n {
                assert(ops.take(i) =~= init.take(i));
                assert(init[i] == ops[i]);
            }
        }
        assert forall|i: int| 0 <= i < ops.len() implies #[trigger] v.paths.contains_key(ops[i].0) by {
            if i < n {
                assert(init[i] == ops[i]);
                assert(w.paths.contains_key(init[i].0));
            }
        }
        assert forall|i: int| 0 <= i < ops.len() implies v.paths[ops[i].0] == #[trigger] handle_of(ops, i) by {
            if i < n {
                lemma_handle_of_prefix(ops, i);
                assert(init[i] == ops[i]);
                assert(w.paths.contains_key(init[i].0));
                assert(handle_of(init, i) == w.paths[init[i].0]);
            }
        }
        assert forall|q: Seq<char>| #[trigger] v.paths.contains_key(q) implies
            exists|i: int| 0 <= i < ops.len() && ops[i].0 == q by {
            if q == p {
                assert(ops[n].0 == q);
            } else {
                assert(w.paths.contains_key(q));
                let i = choose|i: int| 0 <= i < init.len() && init[i].0 == q;
                assert(ops[i].0 == q);
            }
        }
        assert forall|f: int| 0 <= f < ops.len() && (forall|k: int| 0 <= k < f ==> ops[k].0 != ops[f].0)
            implies v.sheets[#[trigger] handle_of(ops, f)] == ops[f].1 by {
            if f < n {
                lemma_handle_of_prefix(ops, f);
                assert(init[f] == ops[f]);
                assert forall|k: int| 0 <= k < f implies init[k].0 != init[f].0 by {
                    assert(init[k] == ops[k]);
                }
                assert(w.sheets[handle_of(init, f)] == init[f].1);
                assert(w.paths.contains_key(init[f].0));
            } else {
                if w.paths.contains_key(p) {
                    let i = choose|i: int| 0 <= i < init.len() && init[i].0 == p;
                    assert(ops[i] == init[i]);
                    assert(ops[i].0 != ops[f].0);
                }
            }
        }
        assert forall|id: u64| #[trigger] v.sheets.contains_key(id) implies
            exists|i: int| 0 <= i < ops.len() && handle_of(ops, i) == id by {
            if w.sheets.contains_key(id) {
                let i = choose|i: int| 0 <= i < init.len() && handle_of(init, i) == id;
                lemma_handle_of_prefix(ops, i);
            } else {
                assert(handle_of(ops, n) == id);
            }
        }
    }
}

/// Handles are deduplicated by path: two loads of one history return the
/// same handle exactly when they name the same path.
pub proof fn lemma_history_handles_by_path(ops: Seq<(Seq<char>, SpriteSheet)>, i: int, j: int)
    requires
        ops.len() < u64::MAX,
        0 <= i < ops.len(),
        0 <= j < ops.len(),
    ensures
        handle_of(ops, i) == handle_of(ops, j) <==> ops[i].0 == ops[j].0,
{
    lemma_replay(ops);
    let v = AssetView::empty().replay(ops);
    assert(v.paths.contains_key(ops[i].0) && v.paths[ops[i].0] == handle_of(ops, i));
    assert(v.paths.contains_key(ops[j].0) && v.paths[ops[j].0] == handle_of(ops, j));
}

/// After any history, the sheet under the handle of a load is the sheet of
/// the first load of that path: later loads of the path never overwrite it.
pub proof fn lemma_history_first_sheet(ops: Seq<(Seq<char>, SpriteSheet)>, i: int, f: int)
    requires
        ops.len() < u64::MAX,
        0 <= f <= i < ops.len(),
        ops[f].0 == ops[i].0,
        forall|k: int| 0 <= k < f ==> ops[k].0 != ops[f].0,
    ensures
        AssetView::empty().replay(ops).sheets.contains_key(handle_of(ops, i)),
        AssetView::empty().replay(ops).sheets[handle_of(ops, i)] == ops[f].1,
{
    lemma_replay(ops);
    lemma_history_handles_by_path(ops, i, f);
    let v = AssetView::empty().replay(ops);
    assert(v.paths.contains_key(ops[i].0) && v.paths[ops[i].0] == handle_of(ops, i));
    assert(v.sheets[handle_of(ops, f)] == ops[f].1);
}

/// After any history, a handle has a sheet exactly when some load returned it.
pub proof fn lemma_history_sheet_iff_loaded(ops: Seq<(Seq<char>, SpriteSheet)>, id: u64)
    requires
        ops.len() < u64::MAX,
    ensures
        AssetView::empty().replay(ops).sheets.contains_key(id) <==> exists|i: int|
            0 <= i < ops.len() && #[trigger] handle_of(ops, i) == id,
{
    lemma_replay(ops);
    let v = AssetView::empty().replay(ops);
    if exists|i: int| 0 <= i < ops.len() && #[trigger] handle_of(ops, i) == id {
        let i = choose|i: int| 0 <= i < ops.len() && #[trigger] handle_of(ops, i) == id;
        assert(v.paths.contains_key(ops[i].0) && v.paths[ops[i].0] == handle_of(ops, i));
    }
}

/// A path never loaded before gets a handle different from every earlier
/// one.
pub proof fn lemma_history_fresh_path(ops: Seq<(Seq<char>, SpriteSheet)>, i: int, j: int)
    requires
        ops.len() < u64::MAX,
        0 <= j < i < ops.len(),
        forall|k: int| 0 <= k < i ==> ops[k].0 != ops[i].0,
    ensures
        handle_of(ops, i) != handle_of(ops, j),
{
    lemma_history_handles_by_path(ops, i, j);
}

/// Loading a path that some earlier load named returns that load's handle
/// and leaves the whole registry as it was, whatever sheet is passed.
pub proof fn lemma_history_reload(ops: Seq<(Seq<char>, SpriteSheet)>, j: int, sheet: SpriteSheet)
    requires
        ops.len() + 1 < u64::MAX,
        0 <= j < ops.len(),
    ensures
        AssetView::empty().replay(ops.push((ops[j].0, sheet))) == AssetView::empty().replay(ops),
        handle_of(ops.push((ops[j].0, sheet)), ops.len() as int) == handle_of(ops, j),
{
    lemma_replay(ops);
    let all = ops.push((ops[j].0, sheet));
    assert(all.drop_last() =~= ops);
    assert(all.take(ops.len() as int) =~= ops);
    let v = AssetView::empty().replay(ops);
    assert(v.paths.contains_key(ops[j].0) && v.paths[ops[j].0] == handle_of(ops, j));
}

/// Registry of spritesheets, deduplicated by file path.
pub struct AssetServer {
    sheet_paths: StringHashMap<u64>,
    sheets: HashMap<u64, SpriteSheet>,
    next_id: u64,
}

impl View for AssetServer {
    type V = AssetView;

    closed spec fn view(&self) -> AssetView {
        AssetView { paths: self.sheet_paths@, sheets: self.sheets@, next_id: self.next_id }
    }
}

impl AssetServer {
    /// An empty registry.
    pub fn new() -> (s: Self)
        ensures
            s@ == AssetView::empty(),
            s@.wf(),
            s@.paths == Map::<Seq<char>, u64>::empty(),
            s@.sheets == Map::<u64, SpriteSheet>::empty(),
            s@.next_id == 0,
    {
        AssetServer { sheet_paths: StringHashMap::new(), sheets: HashMap::new(), next_id: 0 }
    }

    /// Register (or retrieve) a SpriteSheet by file path.
    /// Subsequent calls with the same path return the same Handle without
    /// overwriting the stored SpriteSheet.
    pub fn load_sheet(&mut self, path: &str, sheet: SpriteSheet) -> (h: Handle<SpriteSheet>)
        requires
            old(self)@.wf(),
            old(self)@.can_load(path@),
        ensures
            final(self)@.wf(),
            final(self)@ == old(self)@.load(path@, sheet),
            h@ == old(self)@.load_id(path@),
    {
        let id: u64 = match self.sheet_paths.get(path) {
            Some(id) => *id,
            None => {
                let id = self.next_id;
                self.sheet_paths.insert(path.to_string(), id);
                self.next_id = self.next_id + 1;
                id
            },
        };
        if !self.sheets.contains_key(&id) {
            self.sheets.insert(id, sheet);
        }
        proof {
            let o = old(self)@;
            if !o.paths.contains_key(path@) {
                assert(self@.paths =~= o.paths.insert(path@, o.next_id));
                assert(self@.sheets =~= o.sheets.insert(o.next_id, sheet));
            } else {
                assert(self@.sheets =~= o.sheets);
            }
            lemma_load_preserves_wf(o, path@, sheet);
        }
        Handle::new(id)
    }

    /// The spritesheet stored under the handle, if any.
    pub fn get_sheet(&self, handle: &Handle<SpriteSheet>) -> (r: Option<&SpriteSheet>)
        ensures
            match r {
                Some(s) => self@.sheets.contains_key(handle@) && *s == self@.sheets[handle@],
                None => !self@.sheets.contains_key(handle@),
            },
    {
        self.sheets.get(&handle.id)
    }
}

impl Default for AssetServer {
    fn default() -> (s: Self)
        ensures
            s@.wf(),
            s@.paths == Map::<Seq<char>, u64>::empty(),
            s@.sheets == Map::<u64, SpriteSheet>::empty(),
            s@.next_id == 0,
    {
        Self::new()
    }
}

} // verus!
