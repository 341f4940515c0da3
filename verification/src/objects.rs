//! The compatibility context of a run, and the selections made over the
//! files of one package.

use vstd::prelude::*;
use crate::error::Error;
use crate::models::{compatible, has_tag, opt_text, ModFile};

verus! {

/// The game version, and optionally the mod loader, that a run resolves
/// for.
#[derive(Debug)]
pub struct GameVersion {
    pub version: String,
    pub mod_loader: Option<String>,
}

/// What a [`GameVersion`] holds, as plain values.
pub struct GameVersionView {
    pub version: Seq<char>,
    pub mod_loader: Option<Seq<char>>,
}

impl View for GameVersion {
    type V = GameVersionView;

    open spec fn view(&self) -> GameVersionView {
        GameVersionView { version: self.version@, mod_loader: opt_text(self.mod_loader) }
    }
}

impl Clone for GameVersion {
    fn clone(&self) -> (r: Self)
        ensures
            r@ == self@,
    {
        let mod_loader = match &self.mod_loader {
            Some(l) => Some(l.clone()),
            None => None,
        };
        GameVersion { version: self.version.clone(), mod_loader }
    }
}

impl GameVersion {
    /// A context that asks for a game version and for no loader in
    /// particular.
    pub fn new(version: String) -> (r: Self)
        ensures
            r@ == (GameVersionView { version: version@, mod_loader: None }),
    {
        GameVersion { version, mod_loader: None }
    }

    /// The same context, asking for `loader`.
    pub fn with_loader(self, loader: String) -> (r: Self)
        ensures
            r@ == (GameVersionView { version: self@.version, mod_loader: Some(loader@) }),
    {
        let mut this = self;
        this.mod_loader = Some(loader);
        this
    }

    /// Whether `file` may be installed in this context.
    pub fn admits(&self, file: &ModFile) -> (r: bool)
        ensures
            r == self@.admits(file@.versions),
    {
        if !file.has_version(self.version.as_str()) {
            return false;
        }
        match &self.mod_loader {
            Some(l) => file.has_mod_loader(l.as_str()),
            None => true,
        }
    }
}

impl GameVersionView {
    /// A file with these tags may be installed in this context.
    pub open spec fn admits(self, tags: Seq<Seq<char>>) -> bool {
        compatible(tags, Some(self.version), self.mod_loader)
    }
}

/// Where no loader is asked for, a file may be installed exactly when one
/// of its tags is the game version, in any letter case.
pub proof fn lemma_version_decides_without_loader(tags: Seq<Seq<char>>, version: Seq<char>)
    ensures
        (GameVersionView { version, mod_loader: None }).admits(tags) <==> has_tag(tags, version),
{
}

/// A package as a search lists it, with its newest files.
#[derive(Debug)]
pub struct Mod {
    pub id: usize,
    pub name: String,
    pub summary: String,
    /// The package's page.
    pub curseforge: String,
    /// The loaders the package is for, where the registry says.
    pub mod_loaders: Option<Vec<String>>,
    pub latest_files: Vec<ModFile>,
}

/// The files that fit a version and a loader, as a test on one file.
pub open spec fn fitting(version: Option<Seq<char>>, loader: Option<Seq<char>>) -> spec_fn(
    ModFile,
) -> bool {
    |f: ModFile| compatible(f@.versions, version, loader)
}

/// The position `i` holds the greatest key, and no later position holds an
/// equal one.
pub open spec fn is_latest(keys: Seq<int>, i: int) -> bool {
    &&& 0 <= i < keys.len()
    &&& forall|j: int| 0 <= j < keys.len() ==> #[trigger] keys[j] <= keys[i]
    &&& forall|j: int| i < j < keys.len() ==> #[trigger] keys[j] < keys[i]
}

/// The ids of a list of files.
pub open spec fn ids_of(files: Seq<ModFile>) -> Seq<int> {
    Seq::new(files.len(), |i: int| files[i].id as int)
}

/// The publication dates of a list of files, each as one number.
pub open spec fn dates_of(files: Seq<ModFile>) -> Seq<int> {
    Seq::new(files.len(), |i: int| files[i].date.key())
}

/// At most one position is the latest.
pub proof fn lemma_latest_unique(keys: Seq<int>, i: int, j: int)
    requires
        is_latest(keys, i),
        is_latest(keys, j),
    ensures
        i == j,
{
    if i < j {
        assert(keys[j] < keys[i]);
        assert(keys[i] <= keys[j]);
    } else if j < i {
        assert(keys[i] < keys[j]);
        assert(keys[j] <= keys[i]);
    }
}

/// A list that is not empty has a latest position.
pub proof fn lemma_latest_exists(keys: Seq<int>)
    requires
        keys.len() > 0,
    ensures
        exists|i: int| is_latest(keys, i),
    decreases keys.len(),
{
    if keys.len() == 1 {
        assert(is_latest(keys, 0));
    } else {
        let front = keys.drop_last();
        lemma_latest_exists(front);
        let p = choose|i: int| is_latest(front, i);
        let n = keys.len() - 1;
        assert forall|j: int| 0 <= j < n implies keys[j] == front[j] by {}
        if keys[n] >= keys[p] {
            assert forall|j: int| 0 <= j < keys.len() implies #[trigger] keys[j] <= keys[n] by {
                if j < n {
                    assert(front[j] <= front[p]);
                }
            }
            assert(is_latest(keys, n));
        } else {
            assert forall|j: int| 0 <= j < keys.len() implies #[trigger] keys[j] <= keys[p] by {
                if j < n {
                    assert(front[j] <= front[p]);
                }
            }
            assert forall|j: int| p < j < keys.len() implies #[trigger] keys[j] < keys[p] by {
                if j < n {
                    assert(front[j] < front[p]);
                }
            }
            assert(is_latest(keys, p));
        }
    }
}

/// Looking at one more key keeps the latest position, or moves it to the
/// new key where that is no smaller.
pub proof fn lemma_latest_step(keys: Seq<int>, n: int, best: int)
    requires
        0 < n < keys.len(),
        is_latest(keys.take(n), best),
    ensures
        is_latest(
            keys.take(n + 1),
            if keys[n] >= keys[best] {
                n
            } else {
                best
            },
        ),
{
    let before = keys.take(n);
    let after = keys.take(n + 1);
    assert forall|j: int| 0 <= j < n implies #[trigger] after[j] == before[j] by {}
    if keys[n] >= keys[best] {
        assert forall|j: int| 0 <= j < after.len() implies #[trigger] after[j] <= after[n] by {
            if j < n {
                assert(before[j] <= before[best]);
            }
        }
    } else {
        assert forall|j: int| 0 <= j < after.len() implies #[trigger] after[j] <= after[best] by {
            if j < n {
                assert(before[j] <= before[best]);
            }
        }
        assert forall|j: int| best < j < after.len() implies #[trigger] after[j] < after[best] by {
            if j < n {
                assert(before[j] < before[best]);
            }
        }
    }
}

/// The position of the file with the greatest id, the last of them where
/// several share it; `None` for an empty list.
pub fn latest_position(files: &Vec<ModFile>) -> (r: Option<usize>)
    ensures
        match r {
            Some(i) => is_latest(ids_of(files@), i as int),
            None => files@.len() == 0,
        },
{
    if files.len() == 0 {
        return None;
    }
    let mut best: usize = 0;
    let mut i: usize = 1;
    while i < files.len()
        invariant
            1 <= i <= files.len(),
            is_latest(ids_of(files@).take(i as int), best as int),
        decreases files.len() - i,
    {
        proof {
            lemma_latest_step(ids_of(files@), i as int, best as int);
        }
        if files[i].id >= files[best].id {
            best = i;
        }
        i += 1;
    }
    assert(ids_of(files@).take(files@.len() as int) =~= ids_of(files@));
    Some(best)
}

/// The position of the file published last, the last of them where several
/// share the date; `None` for an empty list.
pub fn newest_position(files: &Vec<ModFile>) -> (r: Option<usize>)
    ensures
        match r {
            Some(i) => is_latest(dates_of(files@), i as int),
            None => files@.len() == 0,
        },
{
    if files.len() == 0 {
        return None;
    }
    let mut best: usize = 0;
    let mut i: usize = 1;
    while i < files.len()
        invariant
            1 <= i <= files.len(),
            is_latest(dates_of(files@).take(i as int), best as int),
        decreases files.len() - i,
    {
        proof {
            lemma_latest_step(dates_of(files@), i as int, best as int);
        }
        if files[i].date.not_before(&files[best].date) {
            best = i;
        }
        i += 1;
    }
    assert(dates_of(files@).take(files@.len() as int) =~= dates_of(files@));
    Some(best)
}

/// The files that a list of references points to.
pub open spec fn pointees(refs: Seq<&ModFile>) -> Seq<ModFile> {
    Seq::new(refs.len(), |i: int| *refs[i])
}

/// Selections over the files of one package.
pub trait ModExt {
    /// The files that fit `version` and, where one is given, `loader`, in
    /// their order.
    fn search_mods<'vm>(&'vm self, version: &str, loader: Option<&str>) -> Vec<&'vm ModFile>;

    /// As [`ModExt::search_mods`], handing the files out.
    fn where_mods(self, version: &str, loader: Option<&String>) -> Vec<ModFile>;

    /// The file with the greatest id.
    fn latest<'vm>(&'vm self) -> Result<&'vm ModFile, Error>;
}

/// The text of an optional borrowed text.
pub open spec fn opt_str(o: Option<&str>) -> Option<Seq<char>> {
    match o {
        Some(s) => Some(s@),
        None => None,
    }
}

/// The text of an optional borrowed string.
pub open spec fn opt_string(o: Option<&String>) -> Option<Seq<char>> {
    match o {
        Some(s) => Some(s@),
        None => None,
    }
}

impl ModExt for Vec<ModFile> {
    fn search_mods<'vm>(&'vm self, version: &str, loader: Option<&str>) -> (r: Vec<&'vm ModFile>)
        ensures
            pointees(r@) == self@.filter(fitting(Some(version@), opt_str(loader))),
    {
        let ghost pred = fitting(Some(version@), opt_str(loader));
        let mut out: Vec<&'vm ModFile> = Vec::new();
        let mut i: usize = 0;
        proof {
            reveal(Seq::filter);
            assert(self@.take(0).filter(pred) =~= pointees(out@));
        }
        while i < self.len()
            invariant
                i <= self.len(),
                pred == fitting(Some(version@), opt_str(loader)),
                pointees(out@) == self@.take(i as int).filter(pred),
            decreases self.len() - i,
        {
            let f = &self[i];
            let loader_ok = match loader {
                Some(l) => f.has_mod_loader(l),
                None => true,
            };
            let keep = f.has_version(version) && loader_ok;
            proof {
                assert(self@.take(i + 1) =~= self@.take(i as int).push(self@[i as int]));
                self@.take(i as int).lemma_filter_push(self@[i as int], pred);
                assert(keep == pred(self@[i as int]));
            }
            let ghost before = pointees(out@);
            if keep {
                out.push(f);
                assert(pointees(out@) =~= before.push(self@[i as int]));
            }
            i += 1;
        }
        assert(self@.take(self@.len() as int) =~= self@);
        out
    }

    fn where_mods(self, version: &str, loader: Option<&String>) -> (r: Vec<ModFile>)
        ensures
            r@ == self@.filter(fitting(Some(version@), opt_string(loader))),
    {
        let ghost pred = fitting(Some(version@), opt_string(loader));
        let ghost all = self@;
        let mut results: Vec<ModFile> = Vec::new();
        proof {
            reveal(Seq::filter);
            assert(all.take(0).filter(pred) =~= results@);
        }
        for v in it: self
            invariant
                it.seq() == all,
                pred == fitting(Some(version@), opt_string(loader)),
                results@ == all.take(it.index() as int).filter(pred),
        {
            let ghost i = it.index() as int;
            proof {
                assert(all.take(i + 1) =~= all.take(i).push(all[i]));
                all.take(i).lemma_filter_push(all[i], pred);
            }
            let loader_ok = match loader {
                Some(l) => v.has_mod_loader(l.as_str()),
                None => true,
            };
            if loader_ok && v.has_version(version) {
                results.push(v);
            }
        }
        assert(all.take(all.len() as int) =~= all);
        results
    }

    fn latest<'vm>(&'vm self) -> (r: Result<&'vm ModFile, Error>)
        ensures
            match r {
                Ok(f) => exists|i: int| is_latest(ids_of(self@), i) && *f == self@[i],
                Err(e) => self@.len() == 0 && e == Error::NotFound,
            },
    {
        match latest_position(self) {
            Some(i) => Ok(&self[i]),
            None => Err(Error::NotFound),
        }
    }
}

/// The files among `files` that fit a game version and a loader, in their
/// order; an absent part of the context excludes nothing.
pub fn fitting_files(files: Vec<ModFile>, version: &Option<String>, loader: &Option<String>) -> (r:
    Vec<ModFile>)
    ensures
        r@ == files@.filter(fitting(opt_text(*version), opt_text(*loader))),
{
    let ghost pred = fitting(opt_text(*version), opt_text(*loader));
    let ghost all = files@;
    let mut results: Vec<ModFile> = Vec::new();
    proof {
        reveal(Seq::filter);
        assert(all.take(0).filter(pred) =~= results@);
    }
    for f in it: files
        invariant
            it.seq() == all,
            pred == fitting(opt_text(*version), opt_text(*loader)),
            results@ == all.take(it.index() as int).filter(pred),
    {
        let ghost i = it.index() as int;
        proof {
            assert(all.take(i + 1) =~= all.take(i).push(all[i]));
            all.take(i).lemma_filter_push(all[i], pred);
        }
        if f.fits(version, loader) {
            results.push(f);
        }
    }
    assert(all.take(all.len() as int) =~= all);
    results
}

/// The file that a run installs of a package whose files are `files`: of
/// those that fit, the one published last.
pub open spec fn chosen(
    files: Seq<ModFile>,
    version: Option<Seq<char>>,
    loader: Option<Seq<char>>,
) -> Option<ModFile> {
    let fit = files.filter(fitting(version, loader));
    if fit.len() == 0 {
        None
    } else {
        Some(fit[choose|i: int| is_latest(dates_of(fit), i)])
    }
}

/// Picks the file that a run installs of a package; `NotFound` when no file
/// fits.
pub fn choose_file(files: Vec<ModFile>, version: &Option<String>, loader: &Option<String>) -> (r:
    Result<ModFile, Error>)
    ensures
        match r {
            Ok(f) => chosen(files@, opt_text(*version), opt_text(*loader)) == Some(f),
            Err(e) => e == Error::NotFound && chosen(
                files@,
                opt_text(*version),
                opt_text(*loader),
            ) is None,
        },
{
    let fit = fitting_files(files, version, loader);
    let ghost keys = dates_of(fit@);
    let r = latest_file(fit);
    proof {
        if r is Ok {
            let f = r->Ok_0;
            let i = choose|i: int| is_latest(keys, i) && f == fit@[i];
            let c = choose|i: int| is_latest(keys, i);
            lemma_latest_unique(keys, i, c);
        }
    }
    r
}

/// The file published last among `mods`.
pub fn latest_file(mods: Vec<ModFile>) -> (r: Result<ModFile, Error>)
    ensures
        match r {
            Ok(f) => exists|i: int| is_latest(dates_of(mods@), i) && f == mods@[i],
            Err(e) => mods@.len() == 0 && e == Error::NotFound,
        },
{
    let mut mods = mods;
    match newest_position(&mods) {
        Some(i) => {
            let ghost all = mods@;
            let f = mods.swap_remove(i);
            assert(f == all[i as int]);
            Ok(f)
        },
        None => Err(Error::NotFound),
    }
}

} // verus!
