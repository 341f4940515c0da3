//! Planning of downloads: where a target's bytes come from, how redirects
//! are followed, how many downloads run at once, and what a run sums up to.
//!
//! Nothing here sends a request or writes a file. A caller does, and hands
//! in what came back.

use vstd::prelude::*;
use vstd::string::*;
use crate::error::Error;
use crate::models::ModFile;
use crate::objects::{choose_file, chosen, opt_str, GameVersion};
use crate::text::{escape_spaces, is_last_index_of, last_index_of, spaces_escaped};

verus! {

/// Something to download into a directory: a package of the registry, by
/// its id, or a file, by its address.
#[derive(Debug)]
pub struct DownloadTarget {
    pub id: Option<usize>,
    pub url: Option<String>,
    /// The directory the file is stored in.
    pub dest: String,
}

impl Clone for DownloadTarget {
    fn clone(&self) -> (r: Self)
        ensures
            r == *self,
    {
        let url = match &self.url {
            Some(u) => Some(u.clone()),
            None => None,
        };
        DownloadTarget { id: self.id, url, dest: self.dest.clone() }
    }
}

/// Where the bytes of a target come from.
#[derive(Debug)]
pub enum Source {
    /// The registry is asked for the files of this package first.
    Registry(usize),
    /// The address is fetched and stored under the file name.
    Direct { url: String, filename: String },
    /// The target names neither a package nor an address with a path.
    Unusable,
}

/// The last position of `c` in `s`, where `c` occurs in it.
pub open spec fn last_position(s: Seq<char>, c: char) -> int {
    choose|i: int| is_last_index_of(s, c, i)
}

/// The file name that an address ends in: what follows its last `/`, up to
/// the last `?` of that. An address without `/` has none.
pub open spec fn file_name_of(url: Seq<char>) -> Option<Seq<char>> {
    if !url.contains('/') {
        None
    } else {
        let after = url.subrange(last_position(url, '/') + 1, url.len() as int);
        if after.contains('?') {
            Some(after.subrange(0, last_position(after, '?')))
        } else {
            Some(after)
        }
    }
}

/// A character has at most one last position.
pub proof fn lemma_last_position(s: Seq<char>, c: char, i: int)
    requires
        is_last_index_of(s, c, i),
    ensures
        last_position(s, c) == i,
        s.contains(c),
{
    let j = last_position(s, c);
    assert(is_last_index_of(s, c, j));
    if i < j {
        assert(s[j] != c);
    } else if j < i {
        assert(s[i] != c);
    }
}

/// The file name that an address ends in, if it has a `/`.
pub fn file_name(url: &str) -> (r: Option<String>)
    ensures
        match r {
            Some(name) => file_name_of(url@) == Some(name@),
            None => file_name_of(url@) is None,
        },
{
    match last_index_of(url, '/') {
        None => None,
        Some(slash) => {
            proof {
                lemma_last_position(url@, '/', slash as int);
            }
            let n = url.unicode_len();
            let after = url.substring_char(slash + 1, n);
            match last_index_of(after, '?') {
                Some(mark) => {
                    proof {
                        lemma_last_position(after@, '?', mark as int);
                    }
                    Some(after.substring_char(0, mark).to_owned())
                },
                None => Some(after.to_owned()),
            }
        },
    }
}

/// Decides where the bytes of a target come from: its address where it has
/// one, else its package.
pub fn source_of(target: &DownloadTarget) -> (r: Source)
    ensures
        match r {
            Source::Registry(id) => target.url is None && target.id == Some(id),
            Source::Direct { url, filename } => target.url == Some(url) && file_name_of(url@)
                == Some(filename@),
            Source::Unusable => match target.url {
                Some(u) => file_name_of(u@) is None,
                None => target.id is None,
            },
        },
{
    match &target.url {
        Some(u) => match file_name(u.as_str()) {
            Some(filename) => Source::Direct { url: u.clone(), filename },
            None => Source::Unusable,
        },
        None => match target.id {
            Some(id) => Source::Registry(id),
            None => Source::Unusable,
        },
    }
}

/// Where the bytes of a package come from, given the files that the
/// registry lists for it: the address of the file that a run installs, to
/// be stored under that file's name. `NotFound` where no file fits.
pub fn registry_source(files: Vec<ModFile>, game: &GameVersion) -> (r: Result<Source, Error>)
    ensures
        match chosen(files@, Some(game@.version), game@.mod_loader) {
            Some(f) => r == Ok::<Source, Error>(
                Source::Direct { url: f.download_url, filename: f.filename },
            ),
            None => r == Err::<Source, Error>(Error::NotFound),
        },
{
    let version = Some(game.version.clone());
    match choose_file(files, &version, &game.mod_loader) {
        Ok(f) => {
            let ModFile { download_url, filename, .. } = f;
            Ok(Source::Direct { url: download_url, filename })
        },
        Err(e) => Err(e),
    }
}

/// What is done after a response.
#[derive(Clone, Copy, Debug, PartialEq, Eq, Structural)]
pub enum Hop {
    /// The response redirects: request the new address.
    Follow,
    /// The response is the one to store.
    Arrived,
    /// The response redirects, and the limit of redirects is used up.
    TooMany,
}

/// The state of following redirects.
pub struct RedirectsModel {
    /// The address to request.
    pub url: Seq<char>,
    /// How many more redirects may be followed; `None` for any number.
    pub remaining: Option<nat>,
}

impl RedirectsModel {
    /// The state before the first request: the address with its spaces
    /// escaped, and the whole limit left.
    pub open spec fn start(url: Seq<char>, limit: Option<nat>) -> Self {
        RedirectsModel { url: spaces_escaped(url), remaining: limit }
    }

    /// One more redirect may be followed.
    pub open spec fn may_follow(self) -> bool {
        match self.remaining {
            Some(left) => left > 0,
            None => true,
        }
    }

    /// What is done after a response that names `location`, or none.
    pub open spec fn hop(self, location: Option<Seq<char>>) -> Hop {
        match location {
            None => Hop::Arrived,
            Some(_) => if self.may_follow() {
                Hop::Follow
            } else {
                Hop::TooMany
            },
        }
    }

    /// The state after a response that names `location`, or none. Only a
    /// redirect that is followed changes it: the next request goes to the
    /// location, with its spaces escaped.
    pub open spec fn answered(self, location: Option<Seq<char>>) -> Self {
        match location {
            Some(l) => if self.may_follow() {
                RedirectsModel {
                    url: spaces_escaped(l),
                    remaining: match self.remaining {
                        Some(left) => Some((left - 1) as nat),
                        None => None,
                    },
                }
            } else {
                self
            },
            None => self,
        }
    }
}

/// The redirects of one download: the address to request next, and how many
/// more redirects may be followed.
pub struct Redirects {
    url: String,
    remaining: Option<usize>,
}

/// An optional count, as a natural number.
pub open spec fn opt_nat(o: Option<usize>) -> Option<nat> {
    match o {
        Some(n) => Some(n as nat),
        None => None,
    }
}

impl View for Redirects {
    type V = RedirectsModel;

    closed spec fn view(&self) -> RedirectsModel {
        RedirectsModel { url: self.url@, remaining: opt_nat(self.remaining) }
    }
}

impl Redirects {
    /// Begins a download at `url`. At most `max_hops` redirects are
    /// followed; with `None` there is no limit.
    pub fn start(url: &str, max_hops: Option<usize>) -> (r: Self)
        ensures
            r@ == RedirectsModel::start(url@, opt_nat(max_hops)),
    {
        Redirects { url: escape_spaces(url), remaining: max_hops }
    }

    /// The address to request.
    pub fn address(&self) -> (r: &str)
        ensures
            r@ == self@.url,
    {
        self.url.as_str()
    }

    /// Takes the `location` header of the response to the last request, or
    /// `None` where the response has none, and says what to do.
    pub fn answered(&mut self, location: Option<&str>) -> (r: Hop)
        ensures
            r == old(self)@.hop(opt_str(location)),
            final(self)@ == old(self)@.answered(opt_str(location)),
    {
        match location {
            None => Hop::Arrived,
            Some(l) => {
                match self.remaining {
                    Some(left) => {
                        if left == 0 {
                            return Hop::TooMany;
                        }
                        self.remaining = Some(left - 1);
                    },
                    None => {},
                }
                self.url = escape_spaces(l);
                Hop::Follow
            },
        }
    }
}

/// A response that is not a redirect is stored, whatever was followed
/// before; a redirect that is followed moves the download to the address it
/// names, so that the bytes stored come from the last address named.
pub proof fn lemma_redirect_moves_the_download(m: RedirectsModel, location: Seq<char>)
    requires
        m.may_follow(),
    ensures
        m.hop(Some(location)) == Hop::Follow,
        m.answered(Some(location)).url == spaces_escaped(location),
        m.answered(Some(location)).hop(None) == Hop::Arrived,
        m.answered(Some(location)).answered(None) == m.answered(Some(location)),
{
}

/// The length that progress is measured against where a response does not
/// say how long it is.
pub const UNKNOWN_LENGTH: u64 = 209715200;

/// The length that progress is measured against.
pub fn expected_length(content_length: Option<u64>) -> (r: u64)
    ensures
        r == match content_length {
            Some(n) => n,
            None => UNKNOWN_LENGTH,
        },
{
    match content_length {
        Some(n) => n,
        None => UNKNOWN_LENGTH,
    }
}

/// How the download of one target ended.
#[derive(Debug)]
pub struct DownloadOutcome {
    /// What was downloaded: an address, or a package's id.
    pub target: String,
    /// The bytes stored; none where the download failed.
    pub bytes_written: usize,
    pub succeeded: bool,
    /// Why the download failed.
    pub error: Option<Error>,
}

impl DownloadOutcome {
    /// A success has no error; a failure has one and wrote nothing.
    pub open spec fn wf(self) -> bool {
        if self.succeeded {
            self.error is None
        } else {
            self.error is Some && self.bytes_written == 0
        }
    }

    /// The outcome of a download that stored `bytes_written` bytes.
    pub fn success(target: String, bytes_written: usize) -> (r: Self)
        ensures
            r == (DownloadOutcome { target, bytes_written, succeeded: true, error: None }),
            r.wf(),
    {
        DownloadOutcome { target, bytes_written, succeeded: true, error: None }
    }

    /// The outcome of a download that failed.
    pub fn failure(target: String, error: Error) -> (r: Self)
        ensures
            r == (DownloadOutcome {
                target,
                bytes_written: 0,
                succeeded: false,
                error: Some(error),
            }),
            r.wf(),
    {
        DownloadOutcome { target, bytes_written: 0, succeeded: false, error: Some(error) }
    }
}

/// The bytes that the successful downloads among `outcomes` stored.
pub open spec fn bytes_of(outcomes: Seq<DownloadOutcome>) -> nat
    decreases outcomes.len(),
{
    if outcomes.len() == 0 {
        0
    } else if outcomes.last().succeeded {
        bytes_of(outcomes.drop_last()) + outcomes.last().bytes_written as nat
    } else {
        bytes_of(outcomes.drop_last())
    }
}

/// How many downloads among `outcomes` failed.
pub open spec fn failures_of(outcomes: Seq<DownloadOutcome>) -> nat
    decreases outcomes.len(),
{
    if outcomes.len() == 0 {
        0
    } else if outcomes.last().succeeded {
        failures_of(outcomes.drop_last())
    } else {
        failures_of(outcomes.drop_last()) + 1
    }
}

/// What a run of downloads sums up to.
#[derive(Clone, Copy, Debug, PartialEq, Eq, Structural)]
pub struct Summary {
    /// The bytes stored by the downloads that succeeded.
    pub total_bytes: u128,
    /// How many downloads failed.
    pub failed_count: usize,
}

/// The sums are bounded by the number of outcomes.
pub proof fn lemma_sums_bounded(outcomes: Seq<DownloadOutcome>)
    ensures
        bytes_of(outcomes) <= outcomes.len() * usize::MAX,
        failures_of(outcomes) <= outcomes.len(),
    decreases outcomes.len(),
{
    if outcomes.len() > 0 {
        lemma_sums_bounded(outcomes.drop_last());
        let n = outcomes.drop_last().len() as int;
        let m = usize::MAX as int;
        assert((n + 1) * m == n * m + m) by (nonlinear_arith);
    }
}

/// A failed download adds nothing to the bytes and one to the failures; a
/// successful one adds its bytes and no failure.
pub proof fn lemma_outcome_adds(outcomes: Seq<DownloadOutcome>, o: DownloadOutcome)
    ensures
        bytes_of(outcomes.push(o)) == bytes_of(outcomes) + if o.succeeded {
            o.bytes_written as nat
        } else {
            0
        },
        failures_of(outcomes.push(o)) == failures_of(outcomes) + if o.succeeded {
            0nat
        } else {
            1
        },
{
    assert(outcomes.push(o).drop_last() =~= outcomes);
}

/// The order in which outcomes arrive does not change the sums of two of
/// them.
pub proof fn lemma_sums_ignore_order(
    outcomes: Seq<DownloadOutcome>,
    a: DownloadOutcome,
    b: DownloadOutcome,
)
    ensures
        bytes_of(outcomes.push(a).push(b)) == bytes_of(outcomes.push(b).push(a)),
        failures_of(outcomes.push(a).push(b)) == failures_of(outcomes.push(b).push(a)),
{
    lemma_outcome_adds(outcomes, a);
    lemma_outcome_adds(outcomes, b);
    lemma_outcome_adds(outcomes.push(a), b);
    lemma_outcome_adds(outcomes.push(b), a);
}

/// The state of a run of downloads.
pub struct MassDownloaderView {
    /// The targets, in the order in which they were added.
    pub files: Seq<DownloadTarget>,
    /// The outcomes, in the order in which they arrived.
    pub outcomes: Seq<DownloadOutcome>,
    /// The bytes stored so far.
    pub total_bytes: nat,
    /// The downloads that failed so far.
    pub failed_count: nat,
}

impl MassDownloaderView {
    /// The state of a run without targets.
    pub open spec fn start() -> Self {
        MassDownloaderView {
            files: Seq::empty(),
            outcomes: Seq::empty(),
            total_bytes: 0,
            failed_count: 0,
        }
    }

    /// The state after a target was added.
    pub open spec fn added(self, target: DownloadTarget) -> Self {
        MassDownloaderView { files: self.files.push(target), ..self }
    }

    /// The state after an outcome arrived: a success adds its bytes, a
    /// failure adds one to the failures and nothing to the bytes.
    pub open spec fn recorded(self, outcome: DownloadOutcome) -> Self {
        MassDownloaderView {
            outcomes: self.outcomes.push(outcome),
            total_bytes: if outcome.succeeded {
                self.total_bytes + outcome.bytes_written as nat
            } else {
                self.total_bytes
            },
            failed_count: if outcome.succeeded {
                self.failed_count
            } else {
                self.failed_count + 1
            },
            ..self
        }
    }

    /// The sums are those of the outcomes.
    pub open spec fn wf(self) -> bool {
        &&& self.total_bytes == bytes_of(self.outcomes)
        &&& self.failed_count == failures_of(self.outcomes)
    }
}

/// The sums of a run stay those of its outcomes, whatever is added or
/// arrives.
pub proof fn lemma_run_keeps_sums(m: MassDownloaderView, target: DownloadTarget, o: DownloadOutcome)
    requires
        m.wf(),
    ensures
        MassDownloaderView::start().wf(),
        m.added(target).wf(),
        m.recorded(o).wf(),
{
    lemma_outcome_adds(m.outcomes, o);
}

/// A set of targets of which every one is downloaded, and the outcomes that
/// have arrived.
pub struct MassDownloader {
    files: Vec<DownloadTarget>,
    outcomes: Vec<DownloadOutcome>,
    total: u128,
    failed: usize,
}

impl View for MassDownloader {
    type V = MassDownloaderView;

    closed spec fn view(&self) -> MassDownloaderView {
        MassDownloaderView {
            files: self.files@,
            outcomes: self.outcomes@,
            total_bytes: self.total as nat,
            failed_count: self.failed as nat,
        }
    }
}

impl MassDownloader {
    /// The run is in a state that a run can reach.
    pub closed spec fn wf(&self) -> bool {
        self@.wf()
    }

    /// A run that is well formed is in a state of which the laws of
    /// [`MassDownloaderView`] speak.
    pub proof fn lemma_wf(&self)
        requires
            self.wf(),
        ensures
            self@.wf(),
    {
    }

    /// A run without targets.
    pub fn new() -> (r: MassDownloader)
        ensures
            r.wf(),
            r@ == MassDownloaderView::start(),
    {
        MassDownloader { files: Vec::new(), outcomes: Vec::new(), total: 0, failed: 0 }
    }

    /// Adds the package `id`, to be stored in the directory `dest`.
    pub fn add_file(&mut self, id: usize, dest: String)
        requires
            old(self).wf(),
        ensures
            final(self).wf(),
            final(self)@ == old(self)@.added(DownloadTarget { id: Some(id), url: None, dest }),
    {
        self.files.push(DownloadTarget { id: Some(id), dest, url: None });
    }

    /// Adds a target.
    pub fn add_target(&mut self, target: DownloadTarget)
        requires
            old(self).wf(),
        ensures
            final(self).wf(),
            final(self)@ == old(self)@.added(target),
    {
        self.files.push(target);
    }

    /// The targets, in the order in which they were added.
    pub fn targets(&self) -> (r: &Vec<DownloadTarget>)
        ensures
            r@ == self@.files,
    {
        &self.files
    }

    /// Takes the outcome of one download and returns the sums so far.
    pub fn record(&mut self, outcome: DownloadOutcome) -> (r: Summary)
        requires
            old(self).wf(),
        ensures
            final(self).wf(),
            final(self)@ == old(self)@.recorded(outcome),
            r.total_bytes == bytes_of(final(self)@.outcomes),
            r.failed_count == failures_of(final(self)@.outcomes),
    {
        let ghost before = self.outcomes@;
        let succeeded = outcome.succeeded;
        let bytes = outcome.bytes_written;
        self.outcomes.push(outcome);
        let arrived: usize = self.outcomes.len();
        proof {
            lemma_outcome_adds(before, outcome);
            lemma_sums_bounded(before);
            lemma_sums_bounded(self.outcomes@);
            let n = arrived as int;
            let m = usize::MAX as int;
            assert(n * m <= m * m) by (nonlinear_arith)
                requires
                    0 <= n <= m,
            ;
            assert(m * m <= 0xffff_ffff_ffff_ffff * 0xffff_ffff_ffff_ffff) by (nonlinear_arith)
                requires
                    0 <= m <= 0xffff_ffff_ffff_ffff,
            ;
        }
        if succeeded {
            self.total = self.total + bytes as u128;
        } else {
            self.failed = self.failed + 1;
        }
        Summary { total_bytes: self.total, failed_count: self.failed }
    }

    /// The sums of the outcomes that have arrived.
    pub fn summary(&self) -> (r: Summary)
        requires
            self.wf(),
        ensures
            r.total_bytes == self@.total_bytes,
            r.failed_count == self@.failed_count,
            r.total_bytes == bytes_of(self@.outcomes),
            r.failed_count == failures_of(self@.outcomes),
    {
        Summary { total_bytes: self.total, failed_count: self.failed }
    }

    /// Whether as many outcomes have arrived as there are targets.
    pub fn finished(&self) -> (r: bool)
        ensures
            r == (self@.outcomes.len() >= self@.files.len()),
    {
        self.outcomes.len() >= self.files.len()
    }
}

/// What the caller of a schedule does next.
#[derive(Clone, Copy, Debug, PartialEq, Eq, Structural)]
pub enum ScheduleStep {
    /// Start the download of the target at this position.
    Start(usize),
    /// Wait until every download that was started has ended, then say so.
    Drain,
    /// Every target was started and none is running.
    Done,
}

/// The state of a schedule.
pub struct ScheduleModel {
    /// The files to download, in the order in which they are started.
    pub targets: Seq<UrlTarget>,
    /// How many downloads may run at once.
    pub max_workers: nat,
    /// How many targets were started.
    pub next: nat,
    /// How many downloads were started since the last drain.
    pub running: nat,
}

impl ScheduleModel {
    /// The state before anything was started.
    pub open spec fn start(targets: Seq<UrlTarget>, max_workers: nat) -> Self {
        ScheduleModel { targets, max_workers, next: 0, running: 0 }
    }

    /// How many targets there are.
    pub open spec fn total(self) -> nat {
        self.targets.len()
    }

    /// The most downloads that ever run at once: the number asked for, and
    /// one where none was asked for.
    pub open spec fn bound(self) -> nat {
        if self.max_workers == 0 {
            1
        } else {
            self.max_workers
        }
    }

    /// As many downloads run as may run.
    pub open spec fn full(self) -> bool {
        self.running >= self.max_workers && self.running > 0
    }

    /// What the caller does next.
    pub open spec fn step(self) -> ScheduleStep {
        if self.next < self.total() {
            if self.full() {
                ScheduleStep::Drain
            } else {
                ScheduleStep::Start(self.next as usize)
            }
        } else if self.running > 0 {
            ScheduleStep::Drain
        } else {
            ScheduleStep::Done
        }
    }

    /// The state after the caller was told what to do next.
    pub open spec fn stepped(self) -> Self {
        if self.next < self.total() && !self.full() {
            ScheduleModel { next: self.next + 1, running: self.running + 1, ..self }
        } else {
            self
        }
    }

    /// The state after every download that was started has ended.
    pub open spec fn drained(self) -> Self {
        ScheduleModel { running: 0, ..self }
    }

    /// No more targets were started than there are, no more downloads run
    /// than were started, and no more than may run at once.
    pub open spec fn wf(self) -> bool {
        &&& self.total() <= usize::MAX
        &&& self.next <= self.total()
        &&& self.running <= self.next
        &&& self.running <= self.bound()
    }
}

/// Never more downloads run at once than the bound, and the targets are
/// started one after the other, each once.
pub proof fn lemma_schedule_keeps_bound(m: ScheduleModel)
    requires
        m.wf(),
    ensures
        m.stepped().wf(),
        m.drained().wf(),
        m.stepped().running <= m.bound(),
        m.stepped().targets == m.targets,
        m.drained().targets == m.targets,
        m.step() matches ScheduleStep::Start(i) ==> i == m.next && m.stepped().next == m.next + 1,
        !(m.step() is Start) ==> m.stepped() == m,
        m.step() is Done <==> m.next == m.total() && m.running == 0,
{
}

/// One file to download from an address.
#[derive(Debug)]
pub struct UrlTarget {
    pub url: String,
    /// The file's name below the parent directory.
    pub dest: String,
}

/// The targets that a list of pairs of an address and a file name stands
/// for.
pub open spec fn url_targets(pairs: Seq<(String, String)>) -> Seq<UrlTarget> {
    Seq::new(pairs.len(), |i: int| UrlTarget { url: pairs[i].0, dest: pairs[i].1 })
}

/// A list of files to download below one directory.
pub struct Downloader {
    urls: Vec<UrlTarget>,
    parent: String,
}

/// What a [`Downloader`] holds.
pub struct DownloaderView {
    pub urls: Seq<UrlTarget>,
    pub parent: Seq<char>,
}

impl View for Downloader {
    type V = DownloaderView;

    closed spec fn view(&self) -> DownloaderView {
        DownloaderView { urls: self.urls@, parent: self.parent@ }
    }
}

impl Downloader {
    /// A downloader without files, which stores below `parent_path`.
    pub fn new(parent_path: String) -> (r: Self)
        ensures
            r@ == (DownloaderView { urls: Seq::empty(), parent: parent_path@ }),
    {
        Downloader { urls: Vec::new(), parent: parent_path }
    }

    /// Adds files, each given as its address and its name below the parent
    /// directory.
    pub fn extend(&mut self, urls: Vec<(String, String)>)
        ensures
            final(self)@ == (DownloaderView {
                urls: old(self)@.urls + url_targets(urls@),
                parent: old(self)@.parent,
            }),
    {
        let ghost before = self.urls@;
        let ghost all = urls@;
        assert(before + url_targets(all.take(0)) =~= before);
        for v in it: urls
            invariant
                it.seq() == all,
                self.parent == old(self).parent,
                self.urls@ == before + url_targets(all.take(it.index() as int)),
        {
            let ghost i = it.index() as int;
            self.urls.push(UrlTarget { url: v.0, dest: v.1 });
            assert(self.urls@ =~= before + url_targets(all.take(i + 1)));
        }
        assert(all.take(all.len() as int) =~= all);
    }

    /// The directory that the files are stored below.
    pub fn parent(&self) -> (r: &str)
        ensures
            r@ == self@.parent,
    {
        self.parent.as_str()
    }

    /// Turns the list into a schedule in which at most `max_workers`
    /// downloads run at once. With no worker asked for, one download runs at
    /// a time.
    pub fn download_all(self, max_workers: usize) -> (r: Schedule)
        ensures
            r.wf(),
            r@ == ScheduleModel::start(self@.urls, max_workers as nat),
    {
        let total: usize = self.urls.len();
        assert(total == self.urls@.len());
        Schedule { targets: self.urls, max_workers, next: 0, running: 0 }
    }
}

/// The downloads of a list of files, of which a bounded number run at once.
pub struct Schedule {
    targets: Vec<UrlTarget>,
    max_workers: usize,
    next: usize,
    running: usize,
}

impl View for Schedule {
    type V = ScheduleModel;

    closed spec fn view(&self) -> ScheduleModel {
        ScheduleModel {
            targets: self.targets@,
            max_workers: self.max_workers as nat,
            next: self.next as nat,
            running: self.running as nat,
        }
    }
}

impl Schedule {
    /// The schedule is in a state that it can reach.
    pub closed spec fn wf(&self) -> bool {
        self@.wf()
    }

    /// A schedule that is well formed is in a state of which the laws of
    /// [`ScheduleModel`] speak.
    pub proof fn lemma_wf(&self)
        requires
            self.wf(),
        ensures
            self@.wf(),
    {
    }

    /// Says what to do next. After `Start` the download counts as running
    /// until the next drain.
    pub fn step(&mut self) -> (r: ScheduleStep)
        requires
            old(self).wf(),
        ensures
            final(self).wf(),
            r == old(self)@.step(),
            final(self)@ == old(self)@.stepped(),
    {
        if self.next < self.targets.len() {
            if self.running >= self.max_workers && self.running > 0 {
                ScheduleStep::Drain
            } else {
                let index = self.next;
                self.next = self.next + 1;
                self.running = self.running + 1;
                ScheduleStep::Start(index)
            }
        } else if self.running > 0 {
            ScheduleStep::Drain
        } else {
            ScheduleStep::Done
        }
    }

    /// Takes note that every download that was started has ended.
    pub fn drained(&mut self)
        requires
            old(self).wf(),
        ensures
            final(self).wf(),
            final(self)@ == old(self)@.drained(),
    {
        self.running = 0;
    }

    /// The file at a position of the schedule.
    pub fn target(&self, index: usize) -> (r: Option<&UrlTarget>)
        ensures
            match r {
                Some(t) => index < self@.targets.len() && *t == self@.targets[index as int],
                None => index >= self@.targets.len(),
            },
    {
        if index < self.targets.len() {
            Some(&self.targets[index])
        } else {
            None
        }
    }
}

} // verus!
