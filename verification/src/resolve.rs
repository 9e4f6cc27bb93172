//! Path resolution: mapping a request path to a file under the public root.
//!
//! The algorithm, in order: reject any request containing a `..` segment
//! before touching the filesystem; try the request with one trailing slash
//! stripped as a regular file; try the request as given as a regular file;
//! then walk upward from the joined path, segment by segment, looking for a
//! child named `index.html`.  The walk stops at the root: the last candidate
//! it probes is the root's own `index.html`, so every path probed or served
//! lies lexically within the root.  When the walk exhausts the request's
//! path below the root, resolution falls back to the configured not-found
//! resource.
//!
//! Filesystem access is kept outside this module.  The resolution decisions
//! form a state machine ([`resolve_start`], [`resolve_step`]): each step
//! emits an [`Action`], either a probe the driver must answer or the final
//! verdict.  [`resolve_with_fs`] drives the machine against an [`FsModel`],
//! a pure description of the relevant filesystem facts, and is proved to
//! return exactly [`resolve_spec`].  An I/O driver can run the same machine
//! against the real filesystem.

use vstd::prelude::*;

use crate::paths::{
    has_traversal, has_traversal_seq, index_candidate, index_candidate_seq, join, join_seq,
    lemma_index_candidate_traversal, lemma_index_candidate_within, lemma_join_traversal,
    lemma_join_within, lemma_pop_form, lemma_pop_shrinks, lemma_pop_traversal,
    lemma_strip_one_slash_traversal, pop, pop_seq, strip_one_slash, strip_one_trailing_slash,
    within_root,
};

verus! {

/// The filesystem facts resolution depends on: which paths are existing
/// regular files, and which further paths exist at all (directories and
/// other non-file entries).  Paths are compared as exact strings.
pub struct FsModel {
    /// Paths that exist and are regular files.
    pub files: Vec<String>,
    /// Paths that exist but are not regular files.
    pub others: Vec<String>,
}

impl FsModel {
    /// `p` is an existing regular file.
    pub open spec fn has_file(self, p: Seq<char>) -> bool {
        exists|i: int| 0 <= i < self.files@.len() && self.files@[i]@ == p
    }

    /// `p` exists, as a regular file or otherwise.
    pub open spec fn has_entry(self, p: Seq<char>) -> bool {
        self.has_file(p) || exists|i: int| 0 <= i < self.others@.len() && self.others@[i]@ == p
    }

    /// A model of a real filesystem: no path ending in `/` is listed as a
    /// regular file.
    pub open spec fn wf(self) -> bool {
        forall|i: int|
            0 <= i < self.files@.len() ==> ((#[trigger] self.files@[i])@.len() == 0
                || self.files@[i]@.last() != '/')
    }

    pub fn is_file(&self, p: &String) -> (b: bool)
        ensures
            b == self.has_file(p@),
    {
        contains_string(&self.files, p)
    }

    pub fn is_present(&self, p: &String) -> (b: bool)
        ensures
            b == self.has_entry(p@),
    {
        let in_files = contains_string(&self.files, p);
        if in_files {
            true
        } else {
            contains_string(&self.others, p)
        }
    }
}

fn contains_string(v: &Vec<String>, p: &String) -> (b: bool)
    ensures
        b == exists|i: int| 0 <= i < v@.len() && v@[i]@ == p@,
{
    let mut k: usize = 0;
    while k < v.len()
        invariant
            0 <= k <= v@.len(),
            forall|i: int| 0 <= i < k ==> v@[i]@ != p@,
        decreases v@.len() - k,
    {
        if String::eq(&v[k], p) {
            return true;
        }
        k = k + 1;
    }
    false
}

/// The outcome of resolution: a concrete file to serve, or the not-found
/// fallback.
pub enum ResolvedTarget {
    Found(String),
    NotFound,
}

impl View for ResolvedTarget {
    type V = Option<Seq<char>>;

    open spec fn view(&self) -> Option<Seq<char>> {
        match self {
            ResolvedTarget::Found(p) => Some(p@),
            ResolvedTarget::NotFound => None,
        }
    }
}

/// What the resolution state machine asks of its driver, or decides.
pub enum Action {
    /// Ask whether this path is an existing regular file.
    ProbeIsFile(String),
    /// Ask whether this path exists at all.
    ProbeExists(String),
    /// Serve this file; it lies under the walk from the joined request.
    Serve(String),
    /// Serve the configured not-found resource.
    ServeNotFound,
}

/// The states of the resolution machine, each waiting for the answer to
/// one probe.
pub enum ResolveState {
    /// Probing the candidate with one trailing slash stripped.
    NoSlash { root: String, req: String, cand1: String },
    /// Probing the candidate as given.
    AsGiven { root: String, req: String, cand2: String },
    /// Probing `index.html` under `dir` during the upward walk, which
    /// never climbs above `root`.
    Walk { root: String, dir: String },
    /// Resolution has finished.
    Done(ResolvedTarget),
}

/// The upward `index.html` search, starting from `dir` and popping one
/// segment per step.  It stops at the root boundary: once the directory
/// has shortened to the root, the root's own `index.html` has been the
/// last candidate probed, and the search ends without a match.
pub open spec fn walk_spec(fs: FsModel, root: Seq<char>, dir: Seq<char>) -> Option<Seq<char>>
    decreases dir.len(),
    via walk_spec_decreases
{
    if dir.len() <= root.len() {
        None
    } else if fs.has_entry(index_candidate_seq(dir)) {
        Some(index_candidate_seq(dir))
    } else {
        walk_spec(fs, root, pop_seq(dir))
    }
}

#[via_fn]
proof fn walk_spec_decreases(fs: FsModel, root: Seq<char>, dir: Seq<char>) {
    if dir.len() > root.len() {
        lemma_pop_shrinks(dir);
    }
}

/// The full resolution algorithm over a filesystem model: `Some(path)` is
/// the file to serve, `None` the not-found fallback.
pub open spec fn resolve_spec(fs: FsModel, root: Seq<char>, req: Seq<char>) -> Option<Seq<char>> {
    if has_traversal_seq(req) {
        None
    } else {
        let cand1 = join_seq(root, strip_one_slash(req));
        if fs.has_file(cand1) && !has_traversal_seq(cand1) {
            Some(cand1)
        } else {
            let cand2 = join_seq(root, req);
            if fs.has_file(cand2) {
                Some(cand2)
            } else {
                walk_spec(fs, root, cand2)
            }
        }
    }
}

impl ResolveState {
    /// Internal consistency of a state: the candidate strings agree with
    /// the root and request they were derived from.
    pub open spec fn wf(self) -> bool {
        match self {
            ResolveState::NoSlash { root, req, cand1 } => {
                &&& !has_traversal_seq(req@)
                &&& cand1@ == join_seq(root@, strip_one_slash(req@))
            },
            ResolveState::AsGiven { root, req, cand2 } => {
                &&& !has_traversal_seq(req@)
                &&& cand2@ == join_seq(root@, req@)
            },
            ResolveState::Walk { root, dir } => {
                &&& dir@.len() > root@.len()
                &&& dir@.take(root@.len() as int) == root@
                &&& dir@[root@.len() as int] == '/'
            },
            ResolveState::Done(_) => true,
        }
    }

    /// The result the machine will reach from this state when its probes
    /// are answered according to `fs`.
    pub open spec fn outcome(self, fs: FsModel) -> Option<Seq<char>> {
        match self {
            ResolveState::NoSlash { root, req, cand1 } => resolve_spec(fs, root@, req@),
            ResolveState::AsGiven { root, req, cand2 } => {
                if fs.has_file(cand2@) {
                    Some(cand2@)
                } else {
                    walk_spec(fs, root@, cand2@)
                }
            },
            ResolveState::Walk { root, dir } => walk_spec(fs, root@, dir@),
            ResolveState::Done(t) => t@,
        }
    }

    /// The answer `fs` gives to the probe this state is waiting for.
    pub open spec fn probe_answer(self, fs: FsModel) -> bool {
        match self {
            ResolveState::NoSlash { root, req, cand1 } => fs.has_file(cand1@),
            ResolveState::AsGiven { root, req, cand2 } => fs.has_file(cand2@),
            ResolveState::Walk { root, dir } => fs.has_entry(index_candidate_seq(dir@)),
            ResolveState::Done(_) => true,
        }
    }

    /// The root this state resolves against.
    pub open spec fn root_view(self) -> Seq<char> {
        match self {
            ResolveState::NoSlash { root, req, cand1 } => root@,
            ResolveState::AsGiven { root, req, cand2 } => root@,
            ResolveState::Walk { root, dir } => root@,
            ResolveState::Done(_) => Seq::empty(),
        }
    }

    /// Every path this state and its successors will probe or serve is
    /// free of `..` segments.  Holds from the start whenever the
    /// configured root is itself traversal-free, and is preserved by
    /// every step: the resolver never touches the filesystem with an
    /// unsafe path.
    pub open spec fn probes_clean(self) -> bool {
        match self {
            ResolveState::NoSlash { root, req, cand1 } => {
                &&& !has_traversal_seq(root@)
                &&& !has_traversal_seq(req@)
                &&& !has_traversal_seq(cand1@)
            },
            ResolveState::AsGiven { root, req, cand2 } => {
                &&& !has_traversal_seq(root@)
                &&& !has_traversal_seq(req@)
                &&& !has_traversal_seq(cand2@)
            },
            ResolveState::Walk { root, dir } => !has_traversal_seq(dir@),
            ResolveState::Done(t) => match t {
                ResolvedTarget::Found(p) => !has_traversal_seq(p@),
                ResolvedTarget::NotFound => true,
            },
        }
    }

    /// A bound on the number of steps left from this state.
    pub open spec fn measure(self) -> int {
        match self {
            ResolveState::NoSlash { root, req, cand1 } => 3 + join_seq(root@, req@).len() as int,
            ResolveState::AsGiven { root, req, cand2 } => 2 + cand2@.len() as int,
            ResolveState::Walk { root, dir } => 1 + dir@.len() as int,
            ResolveState::Done(_) => 0,
        }
    }
}

/// The action emitted beside a state matches it: probe states come with
/// their probe, a finished state with its verdict.
pub open spec fn action_matches(act: Action, st: ResolveState) -> bool {
    match st {
        ResolveState::NoSlash { root, req, cand1 } => {
            act matches Action::ProbeIsFile(p) && p@ == cand1@
        },
        ResolveState::AsGiven { root, req, cand2 } => {
            act matches Action::ProbeIsFile(p) && p@ == cand2@
        },
        ResolveState::Walk { root, dir } => {
            act matches Action::ProbeExists(p) && p@ == index_candidate_seq(dir@)
        },
        ResolveState::Done(t) => match t {
            ResolvedTarget::Found(q) => act matches Action::Serve(p) && p@ == q@,
            ResolvedTarget::NotFound => act matches Action::ServeNotFound,
        },
    }
}

/// The path named by an action is free of `..` segments; the not-found
/// verdict names none.
pub open spec fn action_traversal_free(act: Action) -> bool {
    match act {
        Action::ProbeIsFile(p) => !has_traversal_seq(p@),
        Action::ProbeExists(p) => !has_traversal_seq(p@),
        Action::Serve(p) => !has_traversal_seq(p@),
        Action::ServeNotFound => true,
    }
}

/// The path named by an action lies lexically within `root`; the
/// not-found verdict names none.
pub open spec fn action_within(act: Action, root: Seq<char>) -> bool {
    match act {
        Action::ProbeIsFile(p) => within_root(root, p@),
        Action::ProbeExists(p) => within_root(root, p@),
        Action::Serve(p) => within_root(root, p@),
        Action::ServeNotFound => true,
    }
}

/// Begin resolving `req` against `root`.
///
/// A request with a `..` segment is decided here, before any probe: the
/// machine is immediately done with the not-found verdict, so no
/// filesystem path is ever probed or opened for such a request.  Every
/// path the machine ever probes or serves lies lexically within the
/// root, and — under a traversal-free root — is traversal-free too.
pub fn resolve_start(root: &str, req: &str) -> (res: (ResolveState, Action))
    ensures
        res.0.wf(),
        action_matches(res.1, res.0),
        forall|fs: FsModel| #[trigger] res.0.outcome(fs) == resolve_spec(fs, root@, req@),
        has_traversal_seq(req@) ==> res.0 == ResolveState::Done(ResolvedTarget::NotFound)
            && res.1 == Action::ServeNotFound,
        !(res.0 is Done) ==> res.0.root_view() == root@,
        action_within(res.1, root@),
        !has_traversal_seq(root@) ==> res.0.probes_clean() && action_traversal_free(res.1),
{
    if has_traversal(req) {
        (ResolveState::Done(ResolvedTarget::NotFound), Action::ServeNotFound)
    } else {
        let stripped = strip_one_trailing_slash(req);
        let cand1 = join(root, stripped.as_str());
        proof {
            lemma_join_within(root@, strip_one_slash(req@));
            if !has_traversal_seq(root@) {
                lemma_strip_one_slash_traversal(req@);
                lemma_join_traversal(root@, strip_one_slash(req@));
            }
        }
        let probe = cand1.clone();
        let st = ResolveState::NoSlash { root: root.to_owned(), req: req.to_owned(), cand1 };
        (st, Action::ProbeIsFile(probe))
    }
}

/// Advance the machine by answering its pending probe.
///
/// Whatever filesystem the answer came from, the eventual outcome is
/// preserved: for every model `fs` that answers the pending probe with
/// `answer`, the new state decides the same result as the old one.  Every
/// path the step emits lies lexically within the root it resolves
/// against, and a state whose probes are traversal-free only emits, and
/// steps to, traversal-free paths.
pub fn resolve_step(st: ResolveState, answer: bool) -> (res: (ResolveState, Action))
    requires
        st.wf(),
        !(st is Done),
    ensures
        res.0.wf(),
        action_matches(res.1, res.0),
        res.0.measure() < st.measure(),
        forall|fs: FsModel|
            st.probe_answer(fs) == answer ==> #[trigger] res.0.outcome(fs) == st.outcome(fs),
        !(res.0 is Done) ==> res.0.root_view() == st.root_view(),
        action_within(res.1, st.root_view()),
        st.probes_clean() ==> res.0.probes_clean() && action_traversal_free(res.1),
{
    let ghost st0 = st;
    match st {
        ResolveState::NoSlash { root, req, cand1 } => {
            if answer && !has_traversal(cand1.as_str()) {
                proof {
                    lemma_join_within(root@, strip_one_slash(req@));
                }
                let probe = cand1.clone();
                let st2 = ResolveState::Done(ResolvedTarget::Found(cand1));
                proof {
                    assert forall|fs: FsModel| st0.probe_answer(fs) == answer implies #[trigger]
                        st2.outcome(fs) == st0.outcome(fs) by {
                        assert(st0.outcome(fs) == resolve_spec(fs, root@, req@));
                    }
                }
                (st2, Action::Serve(probe))
            } else {
                let cand2 = join(root.as_str(), req.as_str());
                proof {
                    lemma_join_within(root@, req@);
                    if st0.probes_clean() {
                        lemma_join_traversal(root@, req@);
                    }
                }
                let probe = cand2.clone();
                let st2 = ResolveState::AsGiven { root, req, cand2 };
                proof {
                    assert forall|fs: FsModel| st0.probe_answer(fs) == answer implies #[trigger]
                        st2.outcome(fs) == st0.outcome(fs) by {
                        assert(st0.outcome(fs) == resolve_spec(fs, st2->AsGiven_root@, st2->AsGiven_req@));
                    }
                }
                (st2, Action::ProbeIsFile(probe))
            }
        },
        ResolveState::AsGiven { root, req, cand2 } => {
            if answer {
                proof {
                    lemma_join_within(root@, req@);
                }
                let probe = cand2.clone();
                let st2 = ResolveState::Done(ResolvedTarget::Found(cand2));
                proof {
                    assert forall|fs: FsModel| st0.probe_answer(fs) == answer implies #[trigger]
                        st2.outcome(fs) == st0.outcome(fs) by {
                    }
                }
                (st2, Action::Serve(probe))
            } else {
                proof {
                    assert(cand2@.len() > root@.len());
                    assert(cand2@.take(root@.len() as int) =~= root@);
                    assert(cand2@[root@.len() as int] == '/');
                    lemma_index_candidate_within(root@, cand2@);
                    if st0.probes_clean() {
                        lemma_index_candidate_traversal(cand2@);
                    }
                }
                let probe = index_candidate(cand2.as_str());
                let st2 = ResolveState::Walk { root, dir: cand2 };
                proof {
                    assert forall|fs: FsModel| st0.probe_answer(fs) == answer implies #[trigger]
                        st2.outcome(fs) == st0.outcome(fs) by {
                    }
                }
                (st2, Action::ProbeExists(probe))
            }
        },
        ResolveState::Walk { root, dir } => {
            if answer {
                proof {
                    lemma_index_candidate_within(root@, dir@);
                    if st0.probes_clean() {
                        lemma_index_candidate_traversal(dir@);
                    }
                }
                let served = index_candidate(dir.as_str());
                let probe = served.clone();
                let st2 = ResolveState::Done(ResolvedTarget::Found(served));
                proof {
                    assert forall|fs: FsModel| st0.probe_answer(fs) == answer implies #[trigger]
                        st2.outcome(fs) == st0.outcome(fs) by {
                        assert(st0.outcome(fs) == walk_spec(fs, root@, dir@));
                    }
                }
                (st2, Action::Serve(probe))
            } else {
                proof {
                    lemma_pop_shrinks(dir@);
                    lemma_pop_form(dir@);
                    if st0.probes_clean() {
                        lemma_pop_traversal(dir@);
                    }
                }
                let popped = pop(dir.as_str());
                if popped.unicode_len() <= root.unicode_len() {
                    let st2 = ResolveState::Done(ResolvedTarget::NotFound);
                    proof {
                        assert forall|fs: FsModel| st0.probe_answer(fs) == answer implies #[trigger]
                            st2.outcome(fs) == st0.outcome(fs) by {
                            assert(st0.outcome(fs) == walk_spec(fs, root@, dir@));
                            assert(walk_spec(fs, root@, pop_seq(dir@)) == None::<Seq<char>>);
                        }
                    }
                    (st2, Action::ServeNotFound)
                } else {
                    proof {
                        assert(popped@.take(root@.len() as int) =~= dir@.take(root@.len() as int));
                        assert(popped@[root@.len() as int] == dir@[root@.len() as int]);
                        lemma_index_candidate_within(root@, popped@);
                        if st0.probes_clean() {
                            lemma_index_candidate_traversal(pop_seq(dir@));
                        }
                    }
                    let probe = index_candidate(popped.as_str());
                    let st2 = ResolveState::Walk { root, dir: popped };
                    proof {
                        assert forall|fs: FsModel| st0.probe_answer(fs) == answer implies #[trigger]
                            st2.outcome(fs) == st0.outcome(fs) by {
                            assert(st0.outcome(fs) == walk_spec(fs, root@, dir@));
                        }
                    }
                    (st2, Action::ProbeExists(probe))
                }
            }
        },
        ResolveState::Done(_) => vstd::pervasive::unreached(),
    }
}

/// A request with a `..` segment anywhere always resolves to the not-found
/// fallback, whatever the filesystem holds.  Together with the contract of
/// [`resolve_start`] — which finishes such a request before emitting any
/// probe — no filesystem path at all is probed or opened for it.
pub proof fn lemma_traversal_resolves_not_found(fs: FsModel, root: Seq<char>, req: Seq<char>)
    requires
        has_traversal_seq(req),
    ensures
        resolve_spec(fs, root, req) == None::<Seq<char>>,
{
}

/// A request without traversal that names an existing regular file under
/// the root resolves to exactly that file, regardless of any `index.html`
/// elsewhere in the tree.  (For a request ending in `/`, the joined path
/// ends in `/` too, and a well-formed filesystem lists no such regular
/// file, so the hypothesis rules that case out by itself.)
pub proof fn lemma_direct_file_resolved(fs: FsModel, root: Seq<char>, req: Seq<char>)
    requires
        fs.wf(),
        !has_traversal_seq(req),
        !has_traversal_seq(root),
        fs.has_file(join_seq(root, req)),
    ensures
        resolve_spec(fs, root, req) == Some(join_seq(root, req)),
{
    let j = join_seq(root, req);
    if req.len() > 0 && req.last() == '/' {
        assert(j.last() == req.last());
        let i = choose|i: int| 0 <= i < fs.files@.len() && fs.files@[i]@ == j;
        assert(false);
    }
    lemma_join_traversal(root, req);
    assert(strip_one_slash(req) == req);
}

/// The upward walk only ever finds a path lexically within the root, and
/// — when started from a traversal-free directory — a traversal-free one.
proof fn lemma_walk_within(fs: FsModel, root: Seq<char>, dir: Seq<char>)
    requires
        dir.len() > root.len() ==> dir.take(root.len() as int) == root && dir[root.len() as int]
            == '/',
    ensures
        walk_spec(fs, root, dir) matches Some(p) ==> within_root(root, p),
        !has_traversal_seq(dir) ==> (walk_spec(fs, root, dir) matches Some(p)
            ==> !has_traversal_seq(p)),
    decreases dir.len(),
{
    if dir.len() > root.len() {
        if fs.has_entry(index_candidate_seq(dir)) {
            lemma_index_candidate_within(root, dir);
            if !has_traversal_seq(dir) {
                lemma_index_candidate_traversal(dir);
            }
        } else {
            lemma_pop_shrinks(dir);
            lemma_pop_form(dir);
            let popped = pop_seq(dir);
            if popped.len() > root.len() {
                assert(popped.take(root.len() as int) =~= dir.take(root.len() as int));
                assert(popped[root.len() as int] == dir[root.len() as int]);
            }
            if !has_traversal_seq(dir) {
                lemma_pop_traversal(dir);
            }
            lemma_walk_within(fs, root, popped);
        }
    }
}

/// Resolution never leaves the root: the result is the not-found verdict
/// or a path lexically within the configured root — and, for a
/// traversal-free root, itself free of `..` segments.  The last candidate
/// the upward walk probes is the root's own `index.html`.
pub proof fn lemma_resolved_within_root(fs: FsModel, root: Seq<char>, req: Seq<char>)
    ensures
        resolve_spec(fs, root, req) matches Some(p) ==> within_root(root, p),
        !has_traversal_seq(root) ==> (resolve_spec(fs, root, req) matches Some(p)
            ==> !has_traversal_seq(p)),
{
    if !has_traversal_seq(req) {
        lemma_join_within(root, strip_one_slash(req));
        lemma_join_within(root, req);
        let cand2 = join_seq(root, req);
        assert(cand2.take(root.len() as int) =~= root);
        lemma_walk_within(fs, root, cand2);
        if !has_traversal_seq(root) {
            lemma_join_traversal(root, req);
        }
    }
}

/// Resolve `req` against `root` over the filesystem model `fs`, by running
/// the machine and answering its probes from the model.  The result is
/// exactly what [`resolve_spec`] prescribes, and a served file always lies
/// lexically within the root.
pub fn resolve_with_fs(fs: &FsModel, root: &str, req: &str) -> (res: ResolvedTarget)
    ensures
        res@ == resolve_spec(*fs, root@, req@),
        res@ matches Some(p) ==> within_root(root@, p),
{
    let (st0, act0) = resolve_start(root, req);
    let mut st = st0;
    let mut act = act0;
    loop
        invariant
            st.wf(),
            action_matches(act, st),
            st.outcome(*fs) == resolve_spec(*fs, root@, req@),
            !(st is Done) ==> st.root_view() == root@,
            action_within(act, root@),
        decreases st.measure(),
    {
        match act {
            Action::Serve(p) => {
                return ResolvedTarget::Found(p);
            },
            Action::ServeNotFound => {
                return ResolvedTarget::NotFound;
            },
            Action::ProbeIsFile(p) => {
                let ans = fs.is_file(&p);
                let r = resolve_step(st, ans);
                st = r.0;
                act = r.1;
            },
            Action::ProbeExists(p) => {
                let ans = fs.is_present(&p);
                let r = resolve_step(st, ans);
                st = r.0;
                act = r.1;
            },
        }
    }
}

} // verus!
