//! Single-pass resolution of requested signal names over the waveform's
//! scope hierarchy.
//!
//! The declaration stream is a flat sequence of entries: scope openings and
//! closings, variable declarations, and assorted records the resolver must
//! skip. One forward pass tracks the live scope path and records, for every
//! declared variable whose name was requested, one metadata entry per
//! distinct handle — a handle seen again (an alias, or a name requested more
//! than once) contributes nothing further.

use vstd::prelude::*;

verus! {

/// One record of the waveform's declaration stream, reduced to what the
/// resolver reads. `Other` stands for every entry kind the resolver ignores
/// (attributes, comments, source-line markers, enum tables): such entries
/// are legal and must not abort the traversal.
#[derive(Debug, Clone, PartialEq, Eq)]
pub enum HierarchyEntry {
    Scope { name: String },
    UpScope,
    Var { name: String, handle: u64 },
    Other,
}

/// Failure of a hierarchy traversal: a scope was closed while no scope was
/// open, so the declaration stream is malformed.
#[derive(Debug, Clone, Copy, PartialEq, Eq, Structural)]
pub enum HierarchyError {
    UnbalancedScope,
}

/// Metadata for the resolved signals, index-aligned: entry `i` holds the
/// scope path at the point of declaration (a private snapshot, independent
/// of the live path), the declared display name, and the decoder's handle.
#[derive(Debug, Clone, PartialEq, Eq)]
pub struct SignalMetadata {
    pub module_paths: Vec<Vec<String>>,
    pub names: Vec<String>,
    pub handle: Vec<u64>,
}

impl SignalMetadata {
    /// The recorded scope paths, as sequences of scope-name character
    /// sequences.
    pub open spec fn paths_model(&self) -> Seq<Seq<Seq<char>>> {
        self.module_paths.deep_view()
    }

    /// The recorded display names.
    pub open spec fn names_model(&self) -> Seq<Seq<char>> {
        self.names.deep_view()
    }

    /// The recorded handles.
    pub open spec fn handles(&self) -> Seq<u64> {
        self.handle@
    }

    /// The three columns stay index-aligned.
    pub open spec fn len_ok(&self) -> bool {
        &&& self.module_paths@.len() == self.handle@.len()
        &&& self.names@.len() == self.handle@.len()
    }

    /// Well-formedness: aligned columns and pairwise-distinct handles.
    pub open spec fn wf(&self) -> bool {
        &&& self.len_ok()
        &&& forall|a: int, b: int|
            0 <= a < b < self.handle@.len() ==> self.handle@[a] != self.handle@[b]
    }

    /// An empty metadata collection.
    pub fn new() -> (r: Self)
        ensures
            r.wf(),
            r.paths_model() =~= Seq::<Seq<Seq<char>>>::empty(),
            r.names_model() =~= Seq::<Seq<char>>::empty(),
            r.handles() =~= Seq::<u64>::empty(),
    {
        SignalMetadata { module_paths: Vec::new(), names: Vec::new(), handle: Vec::new() }
    }

    /// Append one entry; the caller is responsible for handle freshness.
    pub fn push(&mut self, scope_path: Vec<String>, name: String, handle_id: u64)
        requires
            old(self).len_ok(),
        ensures
            final(self).len_ok(),
            final(self).paths_model() =~= old(self).paths_model().push(scope_path.deep_view()),
            final(self).names_model() =~= old(self).names_model().push(name@),
            final(self).handles() =~= old(self).handles().push(handle_id),
    {
        self.module_paths.push(scope_path);
        self.names.push(name);
        self.handle.push(handle_id);
    }
}

/// The resolver's state: the live scope path and the metadata accumulated so
/// far, the latter as three index-aligned columns.
pub struct ResolverModel {
    pub path: Seq<Seq<char>>,
    pub paths: Seq<Seq<Seq<char>>>,
    pub names: Seq<Seq<char>>,
    pub handles: Seq<u64>,
}

/// The state a traversal starts from: everything empty.
pub open spec fn init_model() -> ResolverModel {
    ResolverModel {
        path: Seq::empty(),
        paths: Seq::empty(),
        names: Seq::empty(),
        handles: Seq::empty(),
    }
}

/// Effect of one hierarchy entry on the resolver state, for the requested
/// names `req`. `None` marks a scope close with no scope open. A variable
/// declaration is recorded exactly when its name is requested and its handle
/// is new; every other entry kind leaves the metadata untouched.
pub open spec fn step_model(m: ResolverModel, e: HierarchyEntry, req: Seq<Seq<char>>) -> Option<
    ResolverModel,
> {
    match e {
        HierarchyEntry::Scope { name } => Some(
            ResolverModel { path: m.path.push(name@), paths: m.paths, names: m.names, handles: m.handles },
        ),
        HierarchyEntry::UpScope => if m.path.len() == 0 {
            None
        } else {
            Some(
                ResolverModel {
                    path: m.path.drop_last(),
                    paths: m.paths,
                    names: m.names,
                    handles: m.handles,
                },
            )
        },
        HierarchyEntry::Var { name, handle } => if req.contains(name@) && !m.handles.contains(
            handle,
        ) {
            Some(
                ResolverModel {
                    path: m.path,
                    paths: m.paths.push(m.path),
                    names: m.names.push(name@),
                    handles: m.handles.push(handle),
                },
            )
        } else {
            Some(m)
        },
        HierarchyEntry::Other => Some(m),
    }
}

/// Folding the entries from position `i` on, starting in state `m`.
pub open spec fn run_model(
    entries: Seq<HierarchyEntry>,
    req: Seq<Seq<char>>,
    i: int,
    m: ResolverModel,
) -> Option<ResolverModel>
    decreases entries.len() - i,
{
    if i < 0 || i >= entries.len() {
        Some(m)
    } else {
        match step_model(m, entries[i], req) {
            None => None,
            Some(m2) => run_model(entries, req, i + 1, m2),
        }
    }
}

/// Whether `name` occurs in the requested names.
fn name_requested(expected: &Vec<String>, name: &String) -> (r: bool)
    ensures
        r == expected.deep_view().contains(name@),
{
    let n = expected.len();
    for i in 0..n
        invariant
            n == expected@.len(),
            forall|j: int| 0 <= j < i ==> expected.deep_view()[j] != name@,
    {
        if expected[i] == *name {
            proof {
                assert(expected.deep_view()[i as int] == name@);
            }
            return true;
        }
        proof {
            assert(expected.deep_view()[i as int] == expected@[i as int]@);
        }
    }
    false
}

/// Whether `h` occurs among the handles recorded so far.
fn handle_known(handles: &Vec<u64>, h: u64) -> (r: bool)
    ensures
        r == handles@.contains(h),
{
    let n = handles.len();
    for i in 0..n
        invariant
            n == handles@.len(),
            forall|j: int| 0 <= j < i ==> handles@[j] != h,
    {
        if handles[i] == h {
            return true;
        }
    }
    false
}

/// An element-wise copy of a list of scope names.
fn clone_path(v: &Vec<String>) -> (r: Vec<String>)
    ensures
        r.deep_view() == v.deep_view(),
{
    let mut r: Vec<String> = Vec::new();
    let n = v.len();
    for i in 0..n
        invariant
            n == v@.len(),
            r.deep_view() =~= v.deep_view().subrange(0, i as int),
    {
        let s = v[i].clone();
        proof {
            assert(s@ == v@[i as int]@);
        }
        let ghost prev = r.deep_view();
        r.push(s);
        proof {
            assert(r.deep_view() =~= prev.push(v.deep_view()[i as int]));
            assert(r.deep_view() =~= v.deep_view().subrange(0, i as int + 1));
        }
    }
    proof {
        assert(v.deep_view().subrange(0, n as int) =~= v.deep_view());
    }
    r
}

/// One forward pass over the hierarchy entries: track the live scope path,
/// and record one metadata entry per distinct handle whose declared name is
/// in `expected`. Ignored entry kinds are explicit no-ops. The traversal
/// fails exactly when some scope close finds no scope open.
pub fn collect_signals(entries: &Vec<HierarchyEntry>, expected: &Vec<String>) -> (r: Result<
    SignalMetadata,
    HierarchyError,
>)
    ensures
        match r {
            Ok(m) => run_model(entries@, expected.deep_view(), 0, init_model()) matches Some(fin)
                && m.wf() && m.paths_model() == fin.paths && m.names_model() == fin.names
                && m.handles() == fin.handles,
            Err(e) => run_model(entries@, expected.deep_view(), 0, init_model()) is None && e
                == HierarchyError::UnbalancedScope,
        },
{
    let ghost req = expected.deep_view();
    let mut metadata = SignalMetadata::new();
    let mut scope_path: Vec<String> = Vec::new();
    let ghost mut mstate = init_model();
    let n = entries.len();
    for idx in 0..n
        invariant
            n == entries@.len(),
            req == expected.deep_view(),
            run_model(entries@, req, 0, init_model()) == run_model(
                entries@,
                req,
                idx as int,
                mstate,
            ),
            mstate.path == scope_path.deep_view(),
            mstate.paths == metadata.paths_model(),
            mstate.names == metadata.names_model(),
            mstate.handles == metadata.handles(),
            metadata.wf(),
    {
        let ghost stepped = step_model(mstate, entries@[idx as int], req);
        match &entries[idx] {
            HierarchyEntry::Scope { name } => {
                let ghost prev = scope_path.deep_view();
                scope_path.push(name.clone());
                proof {
                    assert(scope_path.deep_view() =~= prev.push(name@));
                    mstate = stepped.unwrap();
                }
            },
            HierarchyEntry::UpScope => {
                if scope_path.len() == 0 {
                    proof {
                        assert(stepped is None);
                    }
                    return Err(HierarchyError::UnbalancedScope);
                }
                let ghost prev = scope_path.deep_view();
                scope_path.pop();
                proof {
                    assert(scope_path.deep_view() =~= prev.drop_last());
                    mstate = stepped.unwrap();
                }
            },
            HierarchyEntry::Var { name, handle } => {
                if name_requested(expected, name) && !handle_known(&metadata.handle, *handle) {
                    let path_copy = clone_path(&scope_path);
                    metadata.push(path_copy, name.clone(), *handle);
                    proof {
                        mstate = stepped.unwrap();
                        assert(mstate.paths =~= metadata.paths_model());
                        assert(mstate.names =~= metadata.names_model());
                        assert(mstate.handles =~= metadata.handles());
                    }
                } else {
                    proof {
                        mstate = stepped.unwrap();
                    }
                }
            },
            HierarchyEntry::Other => {
                proof {
                    mstate = stepped.unwrap();
                }
            },
        }
    }
    Ok(metadata)
}

/// Net scope nesting depth contributed by `entries[0..j]`: scope openings
/// count +1, scope closings -1, everything else 0.
pub open spec fn prefix_depth(entries: Seq<HierarchyEntry>, j: int) -> int
    decreases j,
{
    if j <= 0 {
        0
    } else {
        prefix_depth(entries, j - 1) + (match entries[j - 1] {
            HierarchyEntry::Scope { .. } => 1,
            HierarchyEntry::UpScope => -1,
            _ => 0,
        })
    }
}

/// A declaration stream is legally nested when no prefix closes more scopes
/// than were opened before it, and the whole stream closes every scope it
/// opens.
pub open spec fn balanced(entries: Seq<HierarchyEntry>) -> bool {
    &&& forall|j: int| 0 <= j <= entries.len() ==> prefix_depth(entries, j) >= 0
    &&& prefix_depth(entries, entries.len() as int) == 0
}

proof fn lemma_run_depth(
    entries: Seq<HierarchyEntry>,
    req: Seq<Seq<char>>,
    i: int,
    m: ResolverModel,
)
    requires
        0 <= i <= entries.len(),
        forall|j: int|
            i <= j <= entries.len() ==> m.path.len() + prefix_depth(entries, j) - prefix_depth(
                entries,
                i,
            ) >= 0,
    ensures
        run_model(entries, req, i, m) matches Some(fin) && fin.path.len() == m.path.len()
            + prefix_depth(entries, entries.len() as int) - prefix_depth(entries, i),
    decreases entries.len() - i,
{
    if i < entries.len() {
        let e = entries[i];
        assert(m.path.len() + prefix_depth(entries, i + 1) - prefix_depth(entries, i) >= 0);
        let m2 = step_model(m, e, req).unwrap();
        match e {
            HierarchyEntry::UpScope => {
                assert(m.path.len() >= 1);
            },
            _ => {},
        }
        assert(m2.path.len() + prefix_depth(entries, i) - prefix_depth(entries, i + 1)
            == m.path.len());
        assert forall|j: int|
            i + 1 <= j <= entries.len() implies m2.path.len() + #[trigger] prefix_depth(entries, j)
            - prefix_depth(entries, i + 1) >= 0 by {
            assert(m.path.len() + prefix_depth(entries, j) - prefix_depth(entries, i) >= 0);
        };
        lemma_run_depth(entries, req, i + 1, m2);
    }
}

/// Scope-path balance: over a legally nested declaration stream the
/// traversal never fails, and its live scope path returns to empty — for
/// any nesting depth, entry ordering and requested-name set.
pub proof fn lemma_balanced_traversal(entries: Seq<HierarchyEntry>, req: Seq<Seq<char>>)
    requires
        balanced(entries),
    ensures
        run_model(entries, req, 0, init_model()) matches Some(fin) && fin.path.len() == 0,
{
    lemma_run_depth(entries, req, 0, init_model());
}

/// Soundness of a resolver state against the requested names `req`: the
/// metadata columns are index-aligned, no handle is recorded twice, and
/// every recorded name was requested.
pub open spec fn model_sound(m: ResolverModel, req: Seq<Seq<char>>) -> bool {
    &&& m.paths.len() == m.handles.len()
    &&& m.names.len() == m.handles.len()
    &&& forall|a: int, b: int| 0 <= a < b < m.handles.len() ==> m.handles[a] != m.handles[b]
    &&& forall|k: int| 0 <= k < m.names.len() ==> req.contains(m.names[k])
}

proof fn lemma_run_sound(
    entries: Seq<HierarchyEntry>,
    req: Seq<Seq<char>>,
    i: int,
    m: ResolverModel,
)
    requires
        model_sound(m, req),
    ensures
        run_model(entries, req, i, m) matches Some(fin) ==> model_sound(fin, req),
    decreases entries.len() - i,
{
    if 0 <= i < entries.len() {
        match step_model(m, entries[i], req) {
            None => {},
            Some(m2) => {
                assert(model_sound(m2, req)) by {
                    match entries[i] {
                        HierarchyEntry::Var { name, handle } => {
                            if req.contains(name@) && !m.handles.contains(handle) {
                                assert forall|a: int, b: int|
                                    0 <= a < b < m2.handles.len() implies m2.handles[a]
                                    != m2.handles[b] by {
                                    if b == m.handles.len() {
                                        assert(!m.handles.contains(handle));
                                        assert(m2.handles[a] == m.handles[a]);
                                    }
                                };
                            }
                        },
                        _ => {},
                    }
                };
                lemma_run_sound(entries, req, i + 1, m2);
            },
        }
    }
}

/// Every successful resolution is sound: the recorded handles are pairwise
/// distinct and every recorded name is one of the requested names.
pub proof fn lemma_resolution_sound(entries: Seq<HierarchyEntry>, req: Seq<Seq<char>>)
    ensures
        run_model(entries, req, 0, init_model()) matches Some(fin) ==> model_sound(fin, req),
{
    lemma_run_sound(entries, req, 0, init_model());
}

proof fn lemma_run_membership(
    entries: Seq<HierarchyEntry>,
    req1: Seq<Seq<char>>,
    req2: Seq<Seq<char>>,
    i: int,
    m: ResolverModel,
)
    requires
        forall|s: Seq<char>| req1.contains(s) == req2.contains(s),
    ensures
        run_model(entries, req1, i, m) == run_model(entries, req2, i, m),
    decreases entries.len() - i,
{
    if 0 <= i < entries.len() {
        match entries[i] {
            HierarchyEntry::Var { name, handle } => {
                assert(req1.contains(name@) == req2.contains(name@));
            },
            _ => {},
        }
        assert(step_model(m, entries[i], req1) == step_model(m, entries[i], req2));
        match step_model(m, entries[i], req1) {
            None => {},
            Some(m2) => {
                lemma_run_membership(entries, req1, req2, i + 1, m2);
            },
        }
    }
}

/// The resolution sees the requested names only as a set: two request lists
/// naming the same strings resolve to the same state, failure included.
pub proof fn lemma_requests_by_membership(
    entries: Seq<HierarchyEntry>,
    req1: Seq<Seq<char>>,
    req2: Seq<Seq<char>>,
)
    requires
        forall|s: Seq<char>| req1.contains(s) == req2.contains(s),
    ensures
        run_model(entries, req1, 0, init_model()) == run_model(entries, req2, 0, init_model()),
{
    lemma_run_membership(entries, req1, req2, 0, init_model());
}

/// Requesting a name twice is idempotent: appending an already-requested
/// name to the request list leaves the whole resolution untouched.
pub proof fn lemma_duplicate_request(
    entries: Seq<HierarchyEntry>,
    req: Seq<Seq<char>>,
    s: Seq<char>,
)
    requires
        req.contains(s),
    ensures
        run_model(entries, req.push(s), 0, init_model()) == run_model(
            entries,
            req,
            0,
            init_model(),
        ),
{
    assert forall|x: Seq<char>| req.push(s).contains(x) == req.contains(x) by {
        if req.contains(x) {
            let k = choose|k: int| 0 <= k < req.len() && req[k] == x;
            assert(req.push(s)[k] == x);
            assert(req.push(s).contains(x));
        }
        if req.push(s).contains(x) {
            let k = choose|k: int| 0 <= k < req.push(s).len() && req.push(s)[k] == x;
            if k < req.len() {
                assert(req[k] == x);
                assert(req.contains(x));
            } else {
                assert(x == s);
            }
        }
    };
    lemma_requests_by_membership(entries, req.push(s), req);
}

} // verus!
