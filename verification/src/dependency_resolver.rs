//! Collecting the packages that resolution reports into a list of download
//! targets without repetitions.

use vstd::prelude::*;
use std::collections::HashSet;
use crate::downloader::DownloadTarget;

verus! {

/// What became of a report.
#[derive(Clone, Copy, Debug, PartialEq, Eq, Structural)]
pub enum Received {
    /// The report said that a root is finished.
    RootDone,
    /// The package was reported for the first time and is a target now.
    Added,
    /// The package had been reported before.
    Known,
}

/// The report that stands for "a root is finished" in place of a package.
pub const ROOT_DONE: usize = 0;

/// The target that a reported package becomes.
pub open spec fn target_for(modid: usize, path: String) -> DownloadTarget {
    DownloadTarget { id: Some(modid), url: None, dest: path }
}

/// The state of a collection.
pub struct CollectorModel {
    /// The targets, in the order in which their packages were first
    /// reported.
    pub targets: Seq<DownloadTarget>,
    /// The packages reported so far.
    pub seen: Set<usize>,
    /// How many roots are being resolved.
    pub roots: nat,
    /// How many of them are finished.
    pub finished: nat,
    /// The directory that every target is stored in.
    pub path: String,
}

impl CollectorModel {
    /// The state before any report.
    pub open spec fn start(roots: nat, path: String) -> Self {
        CollectorModel { targets: Seq::empty(), seen: Set::empty(), roots, finished: 0, path }
    }

    /// What becomes of a report.
    pub open spec fn verdict(self, modid: usize) -> Received {
        if modid == ROOT_DONE {
            Received::RootDone
        } else if self.seen.contains(modid) {
            Received::Known
        } else {
            Received::Added
        }
    }

    /// The state after a report.
    pub open spec fn receive(self, modid: usize) -> Self {
        if modid == ROOT_DONE {
            if self.finished < self.roots {
                CollectorModel { finished: self.finished + 1, ..self }
            } else {
                self
            }
        } else if self.seen.contains(modid) {
            self
        } else {
            CollectorModel {
                targets: self.targets.push(target_for(modid, self.path)),
                seen: self.seen.insert(modid),
                ..self
            }
        }
    }

    /// Every root is finished.
    pub open spec fn complete(self) -> bool {
        self.finished >= self.roots
    }

    /// The targets are the packages reported, each once, all stored in the
    /// same directory.
    pub open spec fn wf(self) -> bool {
        &&& self.finished <= self.roots
        &&& forall|i: int|
            0 <= i < self.targets.len() ==> #[trigger] self.targets[i].id is Some
                && self.targets[i].id->Some_0 != ROOT_DONE && self.seen.contains(
                self.targets[i].id->Some_0,
            ) && self.targets[i] == target_for(self.targets[i].id->Some_0, self.path)
        &&& forall|x: usize| #[trigger]
            self.seen.contains(x) ==> exists|i: int|
                0 <= i < self.targets.len() && #[trigger] self.targets[i].id == Some(x)
        &&& forall|i: int, j: int|
            0 <= i < j < self.targets.len() ==> #[trigger] self.targets[i].id
                != #[trigger] self.targets[j].id
    }
}

/// A report keeps the collection free of repetitions.
pub proof fn lemma_receive_wf(m: CollectorModel, modid: usize)
    requires
        m.wf(),
    ensures
        m.receive(modid).wf(),
{
    let n = m.receive(modid);
    if modid != ROOT_DONE && !m.seen.contains(modid) {
        let last = m.targets.len() as int;
        assert(n.targets[last].id == Some(modid));
        assert forall|x: usize| #[trigger] n.seen.contains(x) implies exists|i: int|
            0 <= i < n.targets.len() && #[trigger] n.targets[i].id == Some(x) by {
            if x == modid {
                assert(n.targets[last].id == Some(x));
            } else {
                let i = choose|i: int|
                    0 <= i < m.targets.len() && #[trigger] m.targets[i].id == Some(x);
                assert(n.targets[i].id == Some(x));
            }
        }
        assert forall|i: int, j: int| 0 <= i < j < n.targets.len() implies #[trigger] n.targets[i].id
            != #[trigger] n.targets[j].id by {
            if j == last {
                assert(m.seen.contains(m.targets[i].id->Some_0));
            } else {
                assert(m.targets[i].id != m.targets[j].id);
            }
        }
        assert forall|i: int| 0 <= i < n.targets.len() implies #[trigger] n.targets[i].id is Some
            && n.targets[i].id->Some_0 != ROOT_DONE && n.seen.contains(n.targets[i].id->Some_0)
            && n.targets[i] == target_for(n.targets[i].id->Some_0, n.path) by {
            if i < last {
                assert(m.targets[i].id is Some);
            }
        }
    }
}

/// A package that was reported before is not made a target again: a second
/// report of it changes nothing.
pub proof fn lemma_second_report_changes_nothing(m: CollectorModel, modid: usize)
    requires
        modid != ROOT_DONE,
    ensures
        m.receive(modid).receive(modid) == m.receive(modid),
        m.receive(modid).verdict(modid) == Received::Known,
{
}

/// Gathers the packages that resolution reports, each once, as download
/// targets in one directory.
pub struct TargetCollector {
    targets: Vec<DownloadTarget>,
    seen: HashSet<usize>,
    roots: usize,
    finished: usize,
    path: String,
}

impl View for TargetCollector {
    type V = CollectorModel;

    closed spec fn view(&self) -> CollectorModel {
        CollectorModel {
            targets: self.targets@,
            seen: self.seen@,
            roots: self.roots as nat,
            finished: self.finished as nat,
            path: self.path,
        }
    }
}

impl TargetCollector {
    /// The collection is in a state that it can reach.
    pub closed spec fn wf(&self) -> bool {
        self@.wf()
    }

    /// A collection that is well formed is in a state of which the laws
    /// of [`CollectorModel`] speak.
    pub proof fn lemma_wf(&self)
        requires
            self.wf(),
        ensures
            self@.wf(),
    {
    }

    /// A collection for the resolution of `roots` roots, whose targets are
    /// stored in the directory `path`.
    pub fn new(roots: usize, path: String) -> (r: Self)
        ensures
            r.wf(),
            r@ == CollectorModel::start(roots as nat, path),
    {
        TargetCollector { targets: Vec::new(), seen: HashSet::new(), roots, finished: 0, path }
    }

    /// Takes a report: a package that resolution found, or [`ROOT_DONE`].
    pub fn receive(&mut self, modid: usize) -> (r: Received)
        requires
            old(self).wf(),
        ensures
            final(self).wf(),
            r == old(self)@.verdict(modid),
            final(self)@ == old(self)@.receive(modid),
    {
        proof {
            lemma_receive_wf(self@, modid);
        }
        if modid == ROOT_DONE {
            if self.finished < self.roots {
                self.finished = self.finished + 1;
            }
            return Received::RootDone;
        }
        if self.seen.contains(&modid) {
            return Received::Known;
        }
        self.targets.push(DownloadTarget { id: Some(modid), url: None, dest: self.path.clone() });
        self.seen.insert(modid);
        Received::Added
    }

    /// Whether every root is finished.
    pub fn complete(&self) -> (r: bool)
        ensures
            r == self@.complete(),
    {
        self.finished >= self.roots
    }

    /// The targets, in the order in which their packages were first
    /// reported.
    pub fn into_targets(self) -> (r: Vec<DownloadTarget>)
        ensures
            r@ == self@.targets,
    {
        self.targets
    }
}

} // verus!
