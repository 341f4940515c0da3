//! Resolution of the packages that a set of root packages requires.
//!
//! The registry is asked over a network, so resolution is written as a state
//! machine: [`Resolver`] says which packages to fetch, the caller fetches
//! them in any order and with any concurrency, and hands each answer to
//! [`Resolver::fetched`]. The claim map inside decides that every package is
//! fetched once, however many packages require it. A claim is looked for and
//! made within one call that holds the run exclusively, so no two callers
//! can both find a package unclaimed.

use vstd::prelude::*;
use vstd::set_lib::*;
use rustc_hash::{FxBuildHasher, FxHashMap};
use crate::error::Error;
use crate::models::{opt_text, Dependency, ModFile};
use crate::objects::{choose_file, chosen};
use crate::resolver_meta::LocalDependency;

verus! {

/// The hasher builder of `rustc_hash`; nothing of it is read here.
#[verifier::external_type_specification]
#[verifier::external_body]
pub struct ExFxBuildHasher(FxBuildHasher);

/// `HashMap::contains_key` on a map hashed by Fx: whether `id` is a key.
#[verifier::external_body]
fn fx_contains<V>(m: &FxHashMap<i64, V>, id: i64) -> (r: bool)
    ensures
        r == m@.contains_key(id),
{
    m.contains_key(&id)
}

/// `HashMap::get` on a map hashed by Fx: the value stored under `id`, if
/// `id` is a key.
#[verifier::external_body]
fn fx_get<'a, V>(m: &'a FxHashMap<i64, V>, id: i64) -> (r: Option<&'a V>)
    ensures
        match r {
            Some(v) => m@.contains_key(id) && *v == m@[id],
            None => !m@.contains_key(id),
        },
{
    m.get(&id)
}

/// `HashMap::insert` on a map hashed by Fx: afterwards `id` maps to `v` and
/// every other key is as before; the value that `id` had is returned.
#[verifier::external_body]
fn fx_insert<V>(m: &mut FxHashMap<i64, V>, id: i64, v: V) -> (r: Option<V>)
    ensures
        final(m)@ == old(m)@.insert(id, v),
        match r {
            Some(before) => old(m)@.contains_key(id) && before == old(m)@[id],
            None => !old(m)@.contains_key(id),
        },
{
    m.insert(id, v)
}

/// What is known of a claimed package.
#[derive(Debug)]
pub enum ResolutionClaim {
    /// The package's files have been asked for and not yet judged.
    InFlight,
    /// A file was chosen.
    Resolved(LocalDependency),
    /// The files could not be had, or none fits.
    Failed,
}

/// What the caller does next about the root packages.
#[derive(Clone, Copy, Debug, PartialEq, Eq, Structural)]
pub enum RootStep {
    /// Fetch the files of this root, which was claimed just now.
    Start(i64),
    /// Hand in the answers that are outstanding before asking again.
    Wait,
    /// Every root was considered and no answer is outstanding.
    Done,
}

/// What an answer led to.
#[derive(Debug)]
pub enum Progress {
    /// The package was not waiting for an answer; nothing changed.
    Stale,
    /// The package failed, for the reason given.
    Failed(Error),
    /// The package is resolved; the ids are the packages it requires that
    /// were claimed just now, whose files are to be fetched.
    Resolved(Vec<i64>),
}

/// The ids of the dependencies that are required, in their order.
pub open spec fn required_ids(deps: Seq<Dependency>) -> Seq<i64>
    decreases deps.len(),
{
    if deps.len() == 0 {
        Seq::empty()
    } else if deps.last().required() {
        required_ids(deps.drop_last()).push(deps.last().id)
    } else {
        required_ids(deps.drop_last())
    }
}

/// The ids among `ids` that are not in `taken`, each once, in the order of
/// their first appearance.
pub open spec fn fresh(ids: Seq<i64>, taken: Set<i64>) -> Seq<i64>
    decreases ids.len(),
{
    if ids.len() == 0 {
        Seq::empty()
    } else {
        let rest = fresh(ids.drop_last(), taken);
        if taken.contains(ids.last()) || rest.contains(ids.last()) {
            rest
        } else {
            rest.push(ids.last())
        }
    }
}

/// The claim map after every id of `ids` that is not a key yet was claimed.
pub open spec fn claim_all(claims: Map<i64, ResolutionClaim>, ids: Seq<i64>) -> Map<
    i64,
    ResolutionClaim,
> {
    Map::new(
        |k: i64| claims.contains_key(k) || ids.contains(k),
        |k: i64|
            if claims.contains_key(k) {
                claims[k]
            } else {
                ResolutionClaim::InFlight
            },
    )
}

/// The set holds every root and, with each package that has edges, the
/// packages those edges lead to.
pub open spec fn closed_under(s: Set<i64>, roots: Seq<i64>, edges: Map<i64, Seq<i64>>) -> bool {
    &&& forall|i: int| 0 <= i < roots.len() ==> s.contains(#[trigger] roots[i])
    &&& forall|k: i64, j: int|
        s.contains(k) && edges.contains_key(k) && 0 <= j < edges[k].len() ==> s.contains(
            #[trigger] edges[k][j],
        )
}

/// The package can be reached from a root along edges: it is in every set
/// that holds the roots and is closed under the edges.
pub open spec fn reachable(roots: Seq<i64>, edges: Map<i64, Seq<i64>>, k: i64) -> bool {
    forall|s: Set<i64>| #[trigger] closed_under(s, roots, edges) ==> s.contains(k)
}

/// The packages of a claim map whose answer is outstanding.
pub open spec fn in_flight_of(claims: Map<i64, ResolutionClaim>) -> Set<i64> {
    Set::new(|k: i64| claims.contains_key(k) && claims[k] is InFlight)
}

/// The resolved packages of a claim map, each with its record.
pub open spec fn resolved_of(claims: Map<i64, ResolutionClaim>) -> Map<i64, LocalDependency> {
    Map::new(
        |k: i64| claims.contains_key(k) && claims[k] is Resolved,
        |k: i64| claims[k]->Resolved_0,
    )
}

/// What an answer holds, with the files as a sequence.
pub open spec fn answer_of(files: Result<Vec<ModFile>, Error>) -> Result<Seq<ModFile>, Error> {
    match files {
        Ok(v) => Ok(v@),
        Err(e) => Err(e),
    }
}

/// The state of a resolution run.
pub struct ResolverModel {
    /// The game version asked for, if any.
    pub version: Option<Seq<char>>,
    /// The loader asked for, if any.
    pub loader: Option<Seq<char>>,
    /// The root packages, as the caller gave them.
    pub roots: Seq<i64>,
    /// How many roots have been considered.
    pub next_root: int,
    /// How many roots are started without waiting for the ones before.
    pub workers: int,
    /// The claim map.
    pub claims: Map<i64, ResolutionClaim>,
    /// The claimed packages, in the order in which they were claimed.
    pub order: Seq<i64>,
    /// For each resolved package, the packages that its chosen file requires.
    pub edges: Map<i64, Seq<i64>>,
    /// How many answers are outstanding.
    pub outstanding: nat,
}

impl ResolverModel {
    /// The state before anything was claimed.
    pub open spec fn start(
        roots: Seq<i64>,
        workers: int,
        version: Option<Seq<char>>,
        loader: Option<Seq<char>>,
    ) -> Self {
        ResolverModel {
            version,
            loader,
            roots,
            next_root: 0,
            workers,
            claims: Map::empty(),
            order: Seq::empty(),
            edges: Map::empty(),
            outstanding: 0,
        }
    }

    /// The package is claimed and its answer is outstanding.
    pub open spec fn awaits(self, id: i64) -> bool {
        self.claims.contains_key(id) && self.claims[id] is InFlight
    }

    /// The packages whose answer is outstanding.
    pub open spec fn pending(self) -> Set<i64> {
        in_flight_of(self.claims)
    }

    /// No answer is outstanding.
    pub open spec fn idle(self) -> bool {
        forall|k: i64| !#[trigger] self.awaits(k)
    }

    /// Every root was considered and no answer is outstanding.
    pub open spec fn done(self) -> bool {
        self.next_root == self.roots.len() && self.idle()
    }

    /// The next root may be started now: the first `workers` roots start at
    /// once, a later one only when nothing is outstanding.
    pub open spec fn admits_root(self) -> bool {
        self.next_root < self.workers || self.idle()
    }

    /// The state after `id`, which is not claimed yet, was claimed.
    pub open spec fn claim(self, id: i64) -> Self {
        ResolverModel {
            claims: self.claims.insert(id, ResolutionClaim::InFlight),
            order: self.order.push(id),
            outstanding: self.outstanding + 1,
            ..self
        }
    }

    /// The state after the caller asked what to do about the roots, and the
    /// answer. A root that is claimed already is passed over.
    pub open spec fn next_root(self) -> (Self, RootStep)
        decreases self.roots.len() - self.next_root,
    {
        if self.next_root < 0 || self.next_root >= self.roots.len() {
            (
                self,
                if self.idle() {
                    RootStep::Done
                } else {
                    RootStep::Wait
                },
            )
        } else if !self.admits_root() {
            (self, RootStep::Wait)
        } else {
            let id = self.roots[self.next_root];
            let passed = ResolverModel { next_root: self.next_root + 1, ..self };
            if self.claims.contains_key(id) {
                passed.next_root()
            } else {
                (passed.claim(id), RootStep::Start(id))
            }
        }
    }

    /// What an answer means for the package: the file to install, or why
    /// there is none.
    pub open spec fn verdict(self, files: Result<Seq<ModFile>, Error>) -> Result<ModFile, Error> {
        match files {
            Err(e) => Err(e),
            Ok(fs) => match chosen(fs, self.version, self.loader) {
                Some(f) => Ok(f),
                None => Err(Error::NotFound),
            },
        }
    }

    /// The packages that are claimed because of an answer.
    pub open spec fn spawned(self, id: i64, files: Result<Seq<ModFile>, Error>) -> Seq<i64> {
        if self.awaits(id) && self.verdict(files) is Ok {
            fresh(required_ids(self.verdict(files)->Ok_0.dependencies@), self.claims.dom())
        } else {
            Seq::empty()
        }
    }

    /// The state after an answer for `id` was handed in. An answer for a
    /// package that awaits none changes nothing.
    pub open spec fn fetched(self, id: i64, files: Result<Seq<ModFile>, Error>) -> Self {
        if !self.awaits(id) {
            self
        } else {
            match self.verdict(files) {
                Err(_) => ResolverModel {
                    claims: self.claims.insert(id, ResolutionClaim::Failed),
                    outstanding: (self.outstanding - 1) as nat,
                    ..self
                },
                Ok(f) => {
                    let wanted = required_ids(f.dependencies@);
                    let record = LocalDependency { id, url: f.download_url };
                    ResolverModel {
                        claims: claim_all(
                            self.claims.insert(id, ResolutionClaim::Resolved(record)),
                            fresh(wanted, self.claims.dom()),
                        ),
                        order: self.order + fresh(wanted, self.claims.dom()),
                        edges: self.edges.insert(id, wanted),
                        outstanding: (self.outstanding - 1 + fresh(
                            wanted,
                            self.claims.dom(),
                        ).len()) as nat,
                        ..self
                    }
                },
            }
        }
    }

    /// A failure ends the whole run where the registry could not be reached
    /// for a root; any other failure fails its package alone.
    pub open spec fn ends_run(self, id: i64, e: Error) -> bool {
        self.roots.contains(id) && e == Error::RegistryUnavailable
    }

    /// What holds of every state that a run reaches.
    pub open spec fn wf(self) -> bool {
        &&& 0 <= self.next_root <= self.roots.len()
        &&& 0 <= self.workers
        &&& self.order.no_duplicates()
        &&& forall|k: i64| #[trigger] self.claims.contains_key(k) <==> self.order.contains(k)
        &&& forall|i: int|
            0 <= i < self.next_root ==> self.claims.contains_key(#[trigger] self.roots[i])
        &&& forall|k: i64| #[trigger]
            self.edges.contains_key(k) <==> (self.claims.contains_key(k)
                && self.claims[k] is Resolved)
        &&& forall|k: i64|
            #[trigger] self.claims.contains_key(k) && self.claims[k] is Resolved
                ==> self.claims[k]->Resolved_0.id == k
        &&& forall|k: i64, j: int|
            self.edges.contains_key(k) && 0 <= j < self.edges[k].len()
                ==> self.claims.contains_key(#[trigger] self.edges[k][j])
        &&& forall|k: i64| #[trigger]
            self.claims.contains_key(k) ==> reachable(self.roots, self.edges, k)
        &&& self.pending().finite()
        &&& self.outstanding == self.pending().len()
    }
}

/// `fresh` names each id of `ids` outside `taken`, once.
pub proof fn lemma_fresh(ids: Seq<i64>, taken: Set<i64>)
    ensures
        fresh(ids, taken).no_duplicates(),
        forall|x: i64| #[trigger]
            fresh(ids, taken).contains(x) <==> (ids.contains(x) && !taken.contains(x)),
    decreases ids.len(),
{
    if ids.len() > 0 {
        let front = ids.drop_last();
        let last = ids.last();
        lemma_fresh(front, taken);
        let rest = fresh(front, taken);
        let out = fresh(ids, taken);
        assert forall|x: i64| #[trigger] out.contains(x) <==> (ids.contains(x) && !taken.contains(
            x,
        )) by {
            if ids.contains(x) {
                let i = choose|i: int| 0 <= i < ids.len() && ids[i] == x;
                if i < ids.len() - 1 {
                    assert(front[i] == x);
                    assert(front.contains(x));
                }
            }
            if front.contains(x) {
                let i = choose|i: int| 0 <= i < front.len() && front[i] == x;
                assert(ids[i] == x);
            }
            assert(ids[ids.len() - 1] == last);
            if out.contains(x) {
                let i = choose|i: int| 0 <= i < out.len() && out[i] == x;
                if i < rest.len() {
                    assert(rest[i] == x);
                    assert(rest.contains(x));
                }
            }
            if rest.contains(x) {
                let i = choose|i: int| 0 <= i < rest.len() && rest[i] == x;
                assert(out[i] == x);
            }
            if !(taken.contains(last) || rest.contains(last)) {
                assert(out[out.len() - 1] == last);
            }
        }
        if !(taken.contains(last) || rest.contains(last)) {
            assert forall|i: int, j: int| 0 <= i < out.len() && 0 <= j < out.len() && i != j implies out[i]
                != out[j] by {
                if i < rest.len() && j < rest.len() {
                    assert(rest[i] != rest[j]);
                } else if i < rest.len() {
                    assert(rest[i] == out[i]);
                    assert(rest.contains(out[i]));
                } else {
                    assert(rest[j] == out[j]);
                    assert(rest.contains(out[j]));
                }
            }
        }
    }
}

/// One more dependency extends the required ids by its id, if it is
/// required.
pub proof fn lemma_required_ids_push(deps: Seq<Dependency>, d: Dependency)
    ensures
        required_ids(deps.push(d)) == if d.required() {
            required_ids(deps).push(d.id)
        } else {
            required_ids(deps)
        },
{
    assert(deps.push(d).drop_last() =~= deps);
}

/// One more id extends the fresh ids by itself, unless it is taken or named
/// already.
pub proof fn lemma_fresh_push(ids: Seq<i64>, taken: Set<i64>, x: i64)
    ensures
        fresh(ids.push(x), taken) == if taken.contains(x) || fresh(ids, taken).contains(x) {
            fresh(ids, taken)
        } else {
            fresh(ids, taken).push(x)
        },
{
    assert(ids.push(x).drop_last() =~= ids);
}

/// Reachability survives new edges.
pub proof fn lemma_reachable_grows(
    roots: Seq<i64>,
    edges: Map<i64, Seq<i64>>,
    more: Map<i64, Seq<i64>>,
    k: i64,
)
    requires
        reachable(roots, edges, k),
        forall|p: i64| #[trigger] edges.contains_key(p) ==> more.contains_key(p) && more[p] == edges[p],
    ensures
        reachable(roots, more, k),
{
    assert forall|s: Set<i64>| #[trigger] closed_under(s, roots, more) implies s.contains(k) by {
        assert forall|p: i64, j: int|
            s.contains(p) && edges.contains_key(p) && 0 <= j < edges[p].len() implies s.contains(
            #[trigger] edges[p][j],
        ) by {
            assert(more.contains_key(p));
            assert(s.contains(more[p][j]));
        }
        assert(closed_under(s, roots, edges));
    }
}

/// A root is reachable.
pub proof fn lemma_root_reachable(roots: Seq<i64>, edges: Map<i64, Seq<i64>>, i: int)
    requires
        0 <= i < roots.len(),
    ensures
        reachable(roots, edges, roots[i]),
{
}

/// What an edge of a reachable package leads to is reachable.
pub proof fn lemma_edge_reachable(roots: Seq<i64>, edges: Map<i64, Seq<i64>>, p: i64, j: int)
    requires
        reachable(roots, edges, p),
        edges.contains_key(p),
        0 <= j < edges[p].len(),
    ensures
        reachable(roots, edges, edges[p][j]),
{
    assert forall|s: Set<i64>| #[trigger] closed_under(s, roots, edges) implies s.contains(
        edges[p][j],
    ) by {
        assert(s.contains(p));
    }
}

/// The first state of a run is well formed.
pub proof fn lemma_start_wf(
    roots: Seq<i64>,
    workers: int,
    version: Option<Seq<char>>,
    loader: Option<Seq<char>>,
)
    requires
        0 <= workers,
    ensures
        ResolverModel::start(roots, workers, version, loader).wf(),
{
    assert(ResolverModel::start(roots, workers, version, loader).pending() =~= Set::<i64>::empty());
}

/// Claiming a root that is not claimed yet keeps the state well formed.
pub proof fn lemma_claim_root_wf(m: ResolverModel)
    requires
        m.wf(),
        m.next_root < m.roots.len(),
        !m.claims.contains_key(m.roots[m.next_root]),
    ensures
        (ResolverModel { next_root: m.next_root + 1, ..m }).claim(m.roots[m.next_root]).wf(),
{
    let id = m.roots[m.next_root];
    let n = (ResolverModel { next_root: m.next_root + 1, ..m }).claim(id);
    lemma_claimed(m.claims, id);
    assert forall|k: i64| #[trigger] n.claims.contains_key(k) <==> n.order.contains(k) by {
        if m.order.contains(k) {
            let i = choose|i: int| 0 <= i < m.order.len() && m.order[i] == k;
            assert(n.order[i] == k);
        }
        if n.order.contains(k) {
            let i = choose|i: int| 0 <= i < n.order.len() && n.order[i] == k;
            if i < m.order.len() {
                assert(m.order[i] == k);
                assert(m.order.contains(k));
            }
        }
        assert(n.order[m.order.len() as int] == id);
    }
    assert(n.order.no_duplicates()) by {
        assert forall|i: int, j: int|
            0 <= i < n.order.len() && 0 <= j < n.order.len() && i != j implies n.order[i]
            != n.order[j] by {
            if i < m.order.len() && j < m.order.len() {
            } else if i < m.order.len() {
                assert(m.order.contains(m.order[i]));
            } else {
                assert(m.order.contains(m.order[j]));
            }
        }
    }
    assert forall|i: int| 0 <= i < n.next_root implies n.claims.contains_key(
        #[trigger] n.roots[i],
    ) by {
        if i < m.next_root {
            assert(m.claims.contains_key(m.roots[i]));
        }
    }
    assert forall|k: i64| #[trigger] n.claims.contains_key(k) implies reachable(
        n.roots,
        n.edges,
        k,
    ) by {
        if k == id {
            lemma_root_reachable(m.roots, m.edges, m.next_root);
        } else {
            assert(m.claims.contains_key(k));
        }
    }
    assert forall|k: i64, j: int|
        n.edges.contains_key(k) && 0 <= j < n.edges[k].len() implies n.claims.contains_key(
        #[trigger] n.edges[k][j],
    ) by {
        assert(m.claims.contains_key(m.edges[k][j]));
    }
}

/// Passing over a root that is claimed already keeps the state well
/// formed.
pub proof fn lemma_pass_root_wf(m: ResolverModel)
    requires
        m.wf(),
        m.next_root < m.roots.len(),
        m.claims.contains_key(m.roots[m.next_root]),
    ensures
        (ResolverModel { next_root: m.next_root + 1, ..m }).wf(),
{
    let passed = ResolverModel { next_root: m.next_root + 1, ..m };
    assert forall|i: int| 0 <= i < passed.next_root implies passed.claims.contains_key(
        #[trigger] passed.roots[i],
    ) by {
        if i < m.next_root {
            assert(m.claims.contains_key(m.roots[i]));
        }
    }
}

/// Asking about the roots keeps the state well formed.
pub proof fn lemma_next_root_wf(m: ResolverModel)
    requires
        m.wf(),
    ensures
        m.next_root().0.wf(),
    decreases m.roots.len() - m.next_root,
{
    if m.next_root >= m.roots.len() {
    } else if !m.admits_root() {
    } else {
        let id = m.roots[m.next_root];
        let passed = ResolverModel { next_root: m.next_root + 1, ..m };
        if m.claims.contains_key(id) {
            lemma_pass_root_wf(m);
            lemma_next_root_wf(passed);
        } else {
            lemma_claim_root_wf(m);
        }
    }
}

/// Handing in an answer keeps the state well formed.
pub proof fn lemma_fetched_wf(m: ResolverModel, id: i64, files: Result<Seq<ModFile>, Error>)
    requires
        m.wf(),
    ensures
        m.fetched(id, files).wf(),
{
    let n = m.fetched(id, files);
    if !m.awaits(id) {
    } else if m.verdict(files) is Err {
        lemma_settled(m.claims, id, ResolutionClaim::Failed);
        assert forall|k: i64| #[trigger] n.claims.contains_key(k) implies reachable(
            n.roots,
            n.edges,
            k,
        ) by {
            assert(m.claims.contains_key(k));
        }
        assert forall|k: i64, j: int|
            n.edges.contains_key(k) && 0 <= j < n.edges[k].len() implies n.claims.contains_key(
            #[trigger] n.edges[k][j],
        ) by {
            assert(m.claims.contains_key(m.edges[k][j]));
        }
        assert forall|i: int| 0 <= i < n.next_root implies n.claims.contains_key(
            #[trigger] n.roots[i],
        ) by {
            assert(m.claims.contains_key(m.roots[i]));
        }
    } else {
        let f = m.verdict(files)->Ok_0;
        let wanted = required_ids(f.dependencies@);
        let spawn = fresh(wanted, m.claims.dom());
        let record = LocalDependency { id, url: f.download_url };
        let base = m.claims.insert(id, ResolutionClaim::Resolved(record));
        lemma_fresh(wanted, m.claims.dom());
        lemma_settled(m.claims, id, ResolutionClaim::Resolved(record));
        lemma_claim_all_pending(base, spawn);
        assert(!m.edges.contains_key(id));
        assert forall|k: i64| #[trigger] n.claims.contains_key(k) <==> n.order.contains(k) by {
            if m.order.contains(k) {
                let i = choose|i: int| 0 <= i < m.order.len() && m.order[i] == k;
                assert(n.order[i] == k);
            }
            if spawn.contains(k) {
                let i = choose|i: int| 0 <= i < spawn.len() && spawn[i] == k;
                assert(n.order[m.order.len() + i] == k);
            }
            if n.order.contains(k) {
                let i = choose|i: int| 0 <= i < n.order.len() && n.order[i] == k;
                if i < m.order.len() {
                    assert(m.order[i] == k);
                    assert(m.order.contains(k));
                } else {
                    assert(spawn[i - m.order.len()] == k);
                    assert(spawn.contains(k));
                }
            }
        }
        assert(n.order.no_duplicates()) by {
            assert forall|i: int, j: int|
                0 <= i < n.order.len() && 0 <= j < n.order.len() && i != j implies n.order[i]
                != n.order[j] by {
                let a = m.order.len() as int;
                if i < a && j < a {
                } else if i < a {
                    assert(m.order.contains(m.order[i]));
                    assert(spawn.contains(spawn[j - a]));
                } else if j < a {
                    assert(m.order.contains(m.order[j]));
                    assert(spawn.contains(spawn[i - a]));
                } else {
                    assert(spawn[i - a] != spawn[j - a]);
                }
            }
        }
        assert forall|i: int| 0 <= i < n.next_root implies n.claims.contains_key(
            #[trigger] n.roots[i],
        ) by {
            assert(m.claims.contains_key(m.roots[i]));
        }
        assert forall|k: i64, j: int|
            n.edges.contains_key(k) && 0 <= j < n.edges[k].len() implies n.claims.contains_key(
            #[trigger] n.edges[k][j],
        ) by {
            if k == id {
                let x = wanted[j];
                assert(wanted.contains(x));
                if !m.claims.dom().contains(x) {
                    assert(spawn.contains(x));
                }
            } else {
                assert(m.edges.contains_key(k));
                assert(m.claims.contains_key(m.edges[k][j]));
            }
        }
        assert forall|k: i64| #[trigger] n.claims.contains_key(k) implies reachable(
            n.roots,
            n.edges,
            k,
        ) by {
            assert(m.claims.contains_key(id));
            lemma_reachable_grows(m.roots, m.edges, n.edges, id);
            if m.claims.contains_key(k) {
                lemma_reachable_grows(m.roots, m.edges, n.edges, k);
            } else {
                assert(spawn.contains(k));
                assert(wanted.contains(k));
                let j = choose|j: int| 0 <= j < wanted.len() && wanted[j] == k;
                lemma_edge_reachable(n.roots, n.edges, id, j);
            }
        }
    }
}

/// Every package is claimed once: the claimed packages are those of the
/// claim order, which names none twice, so the claim map has as many keys as
/// claims were made.
pub proof fn lemma_claimed_once(m: ResolverModel)
    requires
        m.wf(),
    ensures
        m.order.no_duplicates(),
        m.claims.dom() =~= m.order.to_set(),
        m.claims.dom().finite(),
        m.claims.dom().len() == m.order.len(),
{
    assert forall|k: i64| m.claims.dom().contains(k) <==> m.order.to_set().contains(k) by {
        assert(m.claims.contains_key(k) <==> m.order.contains(k));
    }
    m.order.unique_seq_to_set();
}

/// When a run is done, the claimed packages are exactly the packages that
/// can be reached from the roots along the requirements of the chosen files;
/// their number is the number of claims that were made.
pub proof fn lemma_done_claims_are_the_reachable(m: ResolverModel)
    requires
        m.wf(),
        m.done(),
    ensures
        forall|k: i64| #[trigger] m.claims.contains_key(k) <==> reachable(m.roots, m.edges, k),
        m.claims.dom().len() == m.order.len(),
        forall|k: i64| #[trigger] m.claims.contains_key(k) ==> !(m.claims[k] is InFlight),
{
    lemma_claimed_once(m);
    let dom = m.claims.dom();
    assert(closed_under(dom, m.roots, m.edges)) by {
        assert forall|i: int| 0 <= i < m.roots.len() implies dom.contains(#[trigger] m.roots[i]) by {
            assert(m.claims.contains_key(m.roots[i]));
        }
        assert forall|k: i64, j: int|
            dom.contains(k) && m.edges.contains_key(k) && 0 <= j < m.edges[k].len() implies dom.contains(
            #[trigger] m.edges[k][j],
        ) by {
            assert(m.claims.contains_key(m.edges[k][j]));
        }
    }
    assert forall|k: i64| #[trigger] m.claims.contains_key(k) <==> reachable(
        m.roots,
        m.edges,
        k,
    ) by {
        if reachable(m.roots, m.edges, k) {
            assert(dom.contains(k));
        }
    }
    assert forall|k: i64| #[trigger] m.claims.contains_key(k) implies !(m.claims[k] is InFlight) by {
        assert(!m.awaits(k));
    }
}

/// Asking about the roots claims at most one package, the root that is to
/// be started, which was not claimed before; otherwise no claim changes.
pub proof fn lemma_start_claims_one(m: ResolverModel)
    requires
        m.wf(),
    ensures
        match m.next_root().1 {
            RootStep::Start(id) => !m.claims.contains_key(id) && m.next_root().0.order
                == m.order.push(id) && m.next_root().0.awaits(id),
            _ => m.next_root().0.order == m.order && m.next_root().0.claims == m.claims,
        },
        m.next_root().1 is Done <==> m.next_root().0.done(),
    decreases m.roots.len() - m.next_root,
{
    if m.next_root >= m.roots.len() {
    } else if !m.admits_root() {
    } else {
        let id = m.roots[m.next_root];
        let passed = ResolverModel { next_root: m.next_root + 1, ..m };
        if m.claims.contains_key(id) {
            lemma_pass_root_wf(m);
            lemma_start_claims_one(passed);
        } else {
            let n = passed.claim(id);
            assert(n.awaits(id));
            assert(!n.idle());
        }
    }
}

/// A root beyond the first `workers` is started only when no answer is
/// outstanding, so that no more roots are in progress at once than
/// `workers`, or one where `workers` is zero.
pub proof fn lemma_later_roots_wait(m: ResolverModel)
    requires
        m.wf(),
        m.next_root().1 is Start,
    ensures
        m.idle() || m.next_root().0.next_root <= m.workers,
    decreases m.roots.len() - m.next_root,
{
    if m.next_root < m.roots.len() && m.admits_root() {
        let id = m.roots[m.next_root];
        let passed = ResolverModel { next_root: m.next_root + 1, ..m };
        if m.claims.contains_key(id) {
            lemma_pass_root_wf(m);
            lemma_later_roots_wait(passed);
            if passed.idle() {
                assert forall|k: i64| !#[trigger] m.awaits(k) by {
                    assert(!passed.awaits(k));
                }
            }
        }
    }
}

/// A second answer for a package changes nothing and claims nothing.
pub proof fn lemma_second_answer_is_stale(
    m: ResolverModel,
    id: i64,
    first: Result<Seq<ModFile>, Error>,
    second: Result<Seq<ModFile>, Error>,
)
    requires
        m.wf(),
        m.awaits(id),
    ensures
        m.fetched(id, first).fetched(id, second) == m.fetched(id, first),
        m.fetched(id, first).spawned(id, second) == Seq::<i64>::empty(),
{
    let n = m.fetched(id, first);
    assert(n.claims.contains_key(id));
    assert(!(n.claims[id] is InFlight));
}

/// The packages claimed because of an answer were not claimed before, and
/// none of them is named twice.
pub proof fn lemma_spawned_are_new(m: ResolverModel, id: i64, files: Result<Seq<ModFile>, Error>)
    requires
        m.wf(),
    ensures
        m.spawned(id, files).no_duplicates(),
        forall|k: i64| #[trigger]
            m.spawned(id, files).contains(k) ==> !m.claims.contains_key(k) && m.fetched(
                id,
                files,
            ).awaits(k),
        m.fetched(id, files).order == m.order + m.spawned(id, files),
{
    if m.awaits(id) && m.verdict(files) is Ok {
        let f = m.verdict(files)->Ok_0;
        lemma_fresh(required_ids(f.dependencies@), m.claims.dom());
    } else {
        assert(m.order + Seq::<i64>::empty() =~= m.order);
    }
}

/// Settling a claim takes its package out of those that are outstanding.
proof fn lemma_settled(claims: Map<i64, ResolutionClaim>, id: i64, c: ResolutionClaim)
    requires
        claims.contains_key(id),
        claims[id] is InFlight,
        !(c is InFlight),
        in_flight_of(claims).finite(),
    ensures
        in_flight_of(claims.insert(id, c)) == in_flight_of(claims).remove(id),
        in_flight_of(claims.insert(id, c)).finite(),
        in_flight_of(claims.insert(id, c)).len() == in_flight_of(claims).len() - 1,
{
    assert(in_flight_of(claims.insert(id, c)) =~= in_flight_of(claims).remove(id));
    assert(in_flight_of(claims).contains(id));
}

/// A new claim adds its package to those that are outstanding.
proof fn lemma_claimed(claims: Map<i64, ResolutionClaim>, id: i64)
    requires
        !claims.contains_key(id),
        in_flight_of(claims).finite(),
    ensures
        in_flight_of(claims.insert(id, ResolutionClaim::InFlight)) == in_flight_of(claims).insert(
            id,
        ),
        in_flight_of(claims.insert(id, ResolutionClaim::InFlight)).finite(),
        in_flight_of(claims.insert(id, ResolutionClaim::InFlight)).len() == in_flight_of(
            claims,
        ).len() + 1,
{
    assert(in_flight_of(claims.insert(id, ResolutionClaim::InFlight)) =~= in_flight_of(
        claims,
    ).insert(id));
    assert(!in_flight_of(claims).contains(id));
}

/// Claiming packages that are not claimed yet, each once, adds as many to
/// those that are outstanding.
proof fn lemma_claim_all_pending(base: Map<i64, ResolutionClaim>, ids: Seq<i64>)
    requires
        ids.no_duplicates(),
        forall|x: i64| #[trigger] ids.contains(x) ==> !base.contains_key(x),
        in_flight_of(base).finite(),
    ensures
        in_flight_of(claim_all(base, ids)).finite(),
        in_flight_of(claim_all(base, ids)).len() == in_flight_of(base).len() + ids.len(),
    decreases ids.len(),
{
    if ids.len() == 0 {
        assert(claim_all(base, ids) =~= base);
    } else {
        let front = ids.drop_last();
        let x = ids.last();
        let last = ids.len() - 1;
        assert forall|k: i64| ids.contains(k) <==> (front.contains(k) || k == x) by {
            if front.contains(k) {
                let i = choose|i: int| 0 <= i < front.len() && front[i] == k;
                assert(ids[i] == k);
            }
            if ids.contains(k) {
                let i = choose|i: int| 0 <= i < ids.len() && ids[i] == k;
                if i < last {
                    assert(front[i] == k);
                }
            }
            assert(ids[last] == x);
        }
        assert(!front.contains(x)) by {
            if front.contains(x) {
                let i = choose|i: int| 0 <= i < front.len() && front[i] == x;
                assert(ids[i] == ids[last]);
            }
        }
        assert(front.no_duplicates());
        lemma_claim_all_pending(base, front);
        let mid = claim_all(base, front);
        assert(claim_all(base, ids) =~= mid.insert(x, ResolutionClaim::InFlight));
        lemma_claimed(mid, x);
    }
}

/// The outstanding packages of a well-formed state are finitely many, no
/// more than were claimed, and none exactly when the state is idle.
pub proof fn lemma_pending(m: ResolverModel)
    requires
        m.wf(),
    ensures
        m.pending().finite(),
        m.pending().len() <= m.order.len(),
        m.pending().len() == 0 <==> m.idle(),
{
    lemma_claimed_once(m);
    assert(m.pending().subset_of(m.claims.dom()));
    lemma_len_subset(m.pending(), m.claims.dom());
    if m.idle() {
        assert forall|k: i64| !m.pending().contains(k) by {
            assert(!m.awaits(k));
        }
        assert(m.pending() =~= Set::<i64>::empty());
    }
    if m.pending().len() == 0 && !m.idle() {
        let k = choose|k: i64| m.awaits(k);
        assert(m.pending().contains(k));
        assert(m.pending().remove(k).len() == m.pending().len() - 1);
    }
}

/// A resolution run: the claim map, the roots still to be considered, and
/// the number of answers that are outstanding.
pub struct Resolver {
    version: Option<String>,
    loader: Option<String>,
    roots: Vec<i64>,
    next_root: usize,
    workers: usize,
    claims: FxHashMap<i64, ResolutionClaim>,
    order: Vec<i64>,
    in_flight: usize,
    edges: Ghost<Map<i64, Seq<i64>>>,
}

impl View for Resolver {
    type V = ResolverModel;

    closed spec fn view(&self) -> ResolverModel {
        ResolverModel {
            version: opt_text(self.version),
            loader: opt_text(self.loader),
            roots: self.roots@,
            next_root: self.next_root as int,
            workers: self.workers as int,
            claims: self.claims@,
            order: self.order@,
            edges: self.edges@,
            outstanding: self.in_flight as nat,
        }
    }
}

impl Resolver {
    /// The run is in a state that a run can reach.
    pub closed spec fn wf(&self) -> bool {
        self@.wf()
    }

    /// A run that is well formed is in a state of which the laws of
    /// [`ResolverModel`] speak.
    pub proof fn lemma_wf(&self)
        requires
            self.wf(),
        ensures
            self@.wf(),
    {
    }

    /// A run that resolves what the packages `ids` require, for the given
    /// game version and loader. The first `workers_number` roots are started
    /// without waiting; each later one is started when nothing is
    /// outstanding.
    pub fn new(
        ids: Vec<i64>,
        workers_number: usize,
        version: Option<String>,
        loader: Option<String>,
    ) -> (r: Self)
        ensures
            r.wf(),
            r@ == ResolverModel::start(
                ids@,
                workers_number as int,
                opt_text(version),
                opt_text(loader),
            ),
    {
        let r = Resolver {
            version,
            loader,
            roots: ids,
            next_root: 0,
            workers: workers_number,
            claims: FxHashMap::default(),
            order: Vec::new(),
            in_flight: 0,
            edges: Ghost(Map::empty()),
        };
        proof {
            assert(r@.pending() =~= Set::<i64>::empty());
        }
        r
    }

    /// What to do next about the roots. A root that some package already
    /// had claimed is passed over.
    pub fn next_root(&mut self) -> (r: RootStep)
        requires
            old(self).wf(),
        ensures
            final(self).wf(),
            (final(self)@, r) == old(self)@.next_root(),
    {
        while self.next_root < self.roots.len()
            invariant
                self.wf(),
                self@.next_root() == old(self)@.next_root(),
            decreases self.roots.len() - self.next_root,
        {
            proof {
                lemma_pending(self@);
            }
            if !(self.next_root < self.workers || self.in_flight == 0) {
                return RootStep::Wait;
            }
            let id = self.roots[self.next_root];
            let ghost before = self@;
            self.next_root = self.next_root + 1;
            if !fx_contains(&self.claims, id) {
                proof {
                    lemma_claim_root_wf(before);
                }
                fx_insert(&mut self.claims, id, ResolutionClaim::InFlight);
                self.order.push(id);
                let claimed: usize = self.order.len();
                assert(self.in_flight < claimed);
                self.in_flight = self.in_flight + 1;
                return RootStep::Start(id);
            }
            proof {
                lemma_pass_root_wf(before);
            }
        }
        proof {
            lemma_pending(self@);
        }
        if self.in_flight == 0 {
            RootStep::Done
        } else {
            RootStep::Wait
        }
    }

    /// Takes the answer to the fetch of package `id`: its files, or why they
    /// could not be had. The file to install is chosen, the package's claim
    /// is settled, and the packages that the file requires and that nobody
    /// had claimed are claimed and returned, to be fetched in turn.
    pub fn fetched(&mut self, id: i64, files: Result<Vec<ModFile>, Error>) -> (r: Progress)
        requires
            old(self).wf(),
        ensures
            final(self).wf(),
            final(self)@ == old(self)@.fetched(id, answer_of(files)),
            match r {
                Progress::Stale => !old(self)@.awaits(id),
                Progress::Failed(e) => old(self)@.awaits(id) && old(self)@.verdict(
                    answer_of(files),
                ) == Err::<ModFile, Error>(e),
                Progress::Resolved(ids) => old(self)@.awaits(id) && old(self)@.verdict(
                    answer_of(files),
                ) is Ok && ids@ == old(self)@.spawned(id, answer_of(files)),
            },
    {
        let ghost m0 = self@;
        let ghost answer = answer_of(files);
        let waiting = match fx_get(&self.claims, id) {
            Some(ResolutionClaim::InFlight) => true,
            _ => false,
        };
        if !waiting {
            return Progress::Stale;
        }
        proof {
            lemma_fetched_wf(m0, id, answer);
            lemma_pending(m0);
        }
        let verdict = match files {
            Ok(v) => choose_file(v, &self.version, &self.loader),
            Err(e) => Err(e),
        };
        match verdict {
            Err(e) => {
                proof {
                    lemma_settled(m0.claims, id, ResolutionClaim::Failed);
                }
                fx_insert(&mut self.claims, id, ResolutionClaim::Failed);
                self.in_flight = self.in_flight - 1;
                Progress::Failed(e)
            },
            Ok(f) => {
                let ghost chosen_file = f;
                let ModFile { download_url, dependencies, .. } = f;
                let ghost record = LocalDependency { id, url: download_url };
                let ghost base = m0.claims.insert(id, ResolutionClaim::Resolved(record));
                let ghost wanted = required_ids(dependencies@);
                let ghost taken = m0.claims.dom();
                proof {
                    lemma_settled(m0.claims, id, ResolutionClaim::Resolved(record));
                }
                fx_insert(
                    &mut self.claims,
                    id,
                    ResolutionClaim::Resolved(LocalDependency { id, url: download_url }),
                );
                self.in_flight = self.in_flight - 1;
                self.edges = Ghost(m0.edges.insert(id, wanted));
                let mut spawn: Vec<i64> = Vec::new();
                let mut i: usize = 0;
                proof {
                    assert(dependencies@.take(0) =~= Seq::<Dependency>::empty());
                    assert(self.claims@ =~= claim_all(base, spawn@));
                    assert(m0.order + spawn@ =~= m0.order);
                    assert(m0.order.len() > 0) by {
                        assert(m0.order.contains(id));
                    }
                }
                while i < dependencies.len()
                    invariant
                        i <= dependencies.len(),
                        m0.wf(),
                        m0.awaits(id),
                        taken == m0.claims.dom(),
                        base == m0.claims.insert(id, ResolutionClaim::Resolved(record)),
                        wanted == required_ids(dependencies@),
                        spawn@ == fresh(required_ids(dependencies@.take(i as int)), taken),
                        m0.outstanding >= 1,
                        self@ == (ResolverModel {
                            claims: claim_all(base, spawn@),
                            order: m0.order + spawn@,
                            edges: m0.edges.insert(id, wanted),
                            outstanding: (m0.outstanding - 1 + spawn@.len()) as nat,
                            ..m0
                        }),
                        self.in_flight < self.order@.len(),
                    decreases dependencies.len() - i,
                {
                    let dep = dependencies[i];
                    let ghost seen = required_ids(dependencies@.take(i as int));
                    proof {
                        assert(dependencies@.take(i + 1) =~= dependencies@.take(i as int).push(
                            dep,
                        ));
                        lemma_required_ids_push(dependencies@.take(i as int), dep);
                        lemma_fresh_push(seen, taken, dep.id);
                    }
                    if dep.is_required() && !fx_contains(&self.claims, dep.id) {
                        let ghost spawn_before = spawn@;
                        fx_insert(&mut self.claims, dep.id, ResolutionClaim::InFlight);
                        self.order.push(dep.id);
                        let claimed: usize = self.order.len();
                        assert(self.in_flight < claimed);
                        self.in_flight = self.in_flight + 1;
                        spawn.push(dep.id);
                        proof {
                            assert(!spawn_before.contains(dep.id));
                            assert(!taken.contains(dep.id));
                            assert(self.claims@ =~= claim_all(base, spawn@)) by {
                                assert forall|k: i64|
                                    spawn@.contains(k) <==> (spawn_before.contains(k) || k
                                        == dep.id) by {
                                    if spawn_before.contains(k) {
                                        let j = choose|j: int|
                                            0 <= j < spawn_before.len() && spawn_before[j] == k;
                                        assert(spawn@[j] == k);
                                    }
                                    if spawn@.contains(k) {
                                        let j = choose|j: int|
                                            0 <= j < spawn@.len() && spawn@[j] == k;
                                        if j < spawn_before.len() {
                                            assert(spawn_before[j] == k);
                                        }
                                    }
                                    assert(spawn@[spawn_before.len() as int] == dep.id);
                                }
                            }
                            assert(self.order@ =~= m0.order + spawn@);
                        }
                    } else {
                        proof {
                            if dep.required() {
                                assert(self.claims@.contains_key(dep.id));
                                assert(base.contains_key(dep.id) || spawn@.contains(dep.id));
                                assert(taken.contains(dep.id) || spawn@.contains(dep.id));
                            }
                        }
                    }
                    i = i + 1;
                }
                proof {
                    assert(dependencies@.take(dependencies@.len() as int) =~= dependencies@);
                    assert(m0.verdict(answer) == Ok::<ModFile, Error>(chosen_file));
                    assert(self@ == m0.fetched(id, answer));
                }
                Progress::Resolved(spawn)
            },
        }
    }

    /// Whether the failure `e` of package `id` ends the whole run: it does
    /// where the registry could not be reached for a root. A run that goes
    /// on hands the failure to [`Resolver::fetched`], which fails the
    /// package alone.
    pub fn ends_run(&self, id: i64, e: Error) -> (r: bool)
        ensures
            r == self@.ends_run(id, e),
    {
        match e {
            Error::RegistryUnavailable => {},
            _ => {
                return false;
            },
        }
        let mut i: usize = 0;
        while i < self.roots.len()
            invariant
                i <= self.roots.len(),
                e == Error::RegistryUnavailable,
                forall|j: int| 0 <= j < i ==> self.roots@[j] != id,
            decreases self.roots.len() - i,
        {
            if self.roots[i] == id {
                assert(self.roots@[i as int] == id);
                return true;
            }
            i = i + 1;
        }
        false
    }

    /// The resolved packages, each with its record.
    pub fn finish(&self) -> (r: FxHashMap<i64, LocalDependency>)
        requires
            self.wf(),
        ensures
            r@ == resolved_of(self@.claims),
    {
        let mut out: FxHashMap<i64, LocalDependency> = FxHashMap::default();
        let mut i: usize = 0;
        while i < self.order.len()
            invariant
                i <= self.order.len(),
                self.wf(),
                forall|k: i64| #[trigger]
                    out@.contains_key(k) <==> (self.order@.take(i as int).contains(k)
                        && self.claims@[k] is Resolved),
                forall|k: i64| #[trigger]
                    out@.contains_key(k) ==> out@[k] == self.claims@[k]->Resolved_0,
            decreases self.order.len() - i,
        {
            let k = self.order[i];
            let ghost before = out@;
            proof {
                assert(self.order@.take(i + 1) =~= self.order@.take(i as int).push(k));
            }
            match fx_get(&self.claims, k) {
                Some(ResolutionClaim::Resolved(dep)) => {
                    fx_insert(&mut out, k, dep.clone());
                },
                _ => {},
            }
            proof {
                let done = self.order@.take(i as int);
                let next = self.order@.take(i + 1);
                assert forall|x: i64| next.contains(x) <==> (done.contains(x) || x == k) by {
                    if done.contains(x) {
                        let j = choose|j: int| 0 <= j < done.len() && done[j] == x;
                        assert(next[j] == x);
                    }
                    if next.contains(x) {
                        let j = choose|j: int| 0 <= j < next.len() && next[j] == x;
                        if j < done.len() {
                            assert(done[j] == x);
                        }
                    }
                    assert(next[i as int] == k);
                }
                assert(self.order@.contains(k)) by {
                    assert(self.order@[i as int] == k);
                }
                assert(self@.claims.contains_key(k));
            }
            i = i + 1;
        }
        proof {
            assert(self.order@.take(self.order@.len() as int) =~= self.order@);
            assert forall|k: i64| out@.contains_key(k) <==> resolved_of(
                self@.claims,
            ).contains_key(k) by {
                assert(self@.claims.contains_key(k) <==> self@.order.contains(k));
            }
            assert(out@ =~= resolved_of(self@.claims));
        }
        out
    }

    /// The claim of a package, if it has one.
    pub fn claim_of(&self, id: i64) -> (r: Option<&ResolutionClaim>)
        ensures
            match r {
                Some(c) => self@.claims.contains_key(id) && *c == self@.claims[id],
                None => !self@.claims.contains_key(id),
            },
    {
        fx_get(&self.claims, id)
    }

    /// The claimed packages, in the order in which they were claimed.
    pub fn claimed(&self) -> (r: &Vec<i64>)
        ensures
            r@ == self@.order,
    {
        &self.order
    }

    /// How many answers are outstanding.
    pub fn outstanding(&self) -> (r: usize)
        requires
            self.wf(),
        ensures
            r == self@.outstanding,
            r == self@.pending().len(),
    {
        self.in_flight
    }

    /// Whether every root was considered and no answer is outstanding.
    pub fn is_done(&self) -> (r: bool)
        requires
            self.wf(),
        ensures
            r == self@.done(),
    {
        proof {
            lemma_pending(self@);
        }
        self.next_root >= self.roots.len() && self.in_flight == 0
    }
}

} // verus!
