//! Registry records and the rules that decide whether a file fits a game
//! version and a mod loader.

use vstd::prelude::*;
use crate::text::{lowercase, same_ignoring_case, same_text, to_lower, eq_ignore_case};

verus! {

/// One hit of a registry search.
#[derive(Debug)]
pub struct ModEntry {
    pub id: i64,
    pub name: String,
    pub summary: String,
    pub mod_loaders: Vec<String>,
    pub curseforge_url: String,
}

/// The kind code that marks a dependency as required.
pub const REQUIRED_DEPENDENCY: i64 = 3;

/// A reference from a file to another package.
#[derive(Clone, Copy, Debug, PartialEq, Eq, Structural)]
pub struct Dependency {
    /// The package depended on.
    pub id: i64,
    /// The registry's kind code.
    pub dep_type: i64,
}

impl Dependency {
    pub open spec fn required(self) -> bool {
        self.dep_type == REQUIRED_DEPENDENCY
    }

    /// Whether this package must be installed together with the file that
    /// names it.
    pub fn is_required(&self) -> (r: bool)
        ensures
            r == self.required(),
    {
        self.dep_type == REQUIRED_DEPENDENCY
    }
}

/// The moment a file was published: seconds since the Unix epoch and the
/// nanoseconds within that second.
#[derive(Clone, Copy, Debug, PartialEq, Eq, Structural)]
pub struct FileDate {
    pub secs: i64,
    pub nanos: u32,
}

impl FileDate {
    /// A single number that orders dates as they order in time.
    pub open spec fn key(self) -> int {
        self.secs * 0x1_0000_0000 + self.nanos
    }

    /// Whether `self` is no earlier than `other`.
    pub fn not_before(&self, other: &FileDate) -> (r: bool)
        ensures
            r == (self.key() >= other.key()),
    {
        self.secs > other.secs || (self.secs == other.secs && self.nanos >= other.nanos)
    }
}

/// One downloadable file of a package.
#[derive(Debug)]
pub struct ModFile {
    pub id: i64,
    /// The name shown to the user.
    pub name: String,
    /// The name the file is stored under.
    pub filename: String,
    pub download_url: String,
    pub date: FileDate,
    /// Game versions and loaders the file supports, as the registry tags them.
    pub versions: Vec<String>,
    pub dependencies: Vec<Dependency>,
}

/// What a [`ModFile`] holds, as plain values.
pub struct ModFileView {
    pub id: i64,
    pub name: Seq<char>,
    pub filename: Seq<char>,
    pub download_url: Seq<char>,
    pub date: FileDate,
    pub versions: Seq<Seq<char>>,
    pub dependencies: Seq<Dependency>,
}

/// The texts of a list of strings.
pub open spec fn texts(v: Seq<String>) -> Seq<Seq<char>> {
    Seq::new(v.len(), |i: int| v[i]@)
}

/// The text of an optional string.
pub open spec fn opt_text(o: Option<String>) -> Option<Seq<char>> {
    match o {
        Some(s) => Some(s@),
        None => None,
    }
}

impl View for ModFile {
    type V = ModFileView;

    open spec fn view(&self) -> ModFileView {
        ModFileView {
            id: self.id,
            name: self.name@,
            filename: self.filename@,
            download_url: self.download_url@,
            date: self.date,
            versions: texts(self.versions@),
            dependencies: self.dependencies@,
        }
    }
}

/// A lower-cased text is one of the known loader names.
pub open spec fn is_known_loader(lowered: Seq<char>) -> bool {
    lowered == "forge"@ || lowered == "fabric"@ || lowered == "liteloader"@
}

/// A tag names a mod loader, in any letter case.
pub open spec fn is_loader_name(tag: Seq<char>) -> bool {
    is_known_loader(lowercase(tag))
}

/// Some tag equals `wanted` up to letter case.
pub open spec fn has_tag(tags: Seq<Seq<char>>, wanted: Seq<char>) -> bool {
    exists|i: int| 0 <= i < tags.len() && same_ignoring_case(#[trigger] tags[i], wanted)
}

/// The loader rule: with fewer than two tags there is nothing to exclude a
/// file by; otherwise only the first tag counts, and only if it names a
/// loader.
pub open spec fn loader_fits(tags: Seq<Seq<char>>, loader: Seq<char>) -> bool {
    tags.len() < 2 || !is_loader_name(tags[0]) || same_ignoring_case(tags[0], loader)
}

/// A file with these tags may be installed for the given game version and
/// loader. A part of the context that is absent excludes nothing.
pub open spec fn compatible(
    tags: Seq<Seq<char>>,
    version: Option<Seq<char>>,
    loader: Option<Seq<char>>,
) -> bool {
    &&& version matches Some(v) ==> has_tag(tags, v)
    &&& loader matches Some(l) ==> loader_fits(tags, l)
}

/// Whether an already lower-cased text is one of the known loader names.
pub fn known_loader(lowered: &str) -> (r: bool)
    ensures
        r == is_known_loader(lowered@),
{
    same_text(lowered, "forge") || same_text(lowered, "fabric") || same_text(
        lowered,
        "liteloader",
    )
}

/// Whether a tag names a mod loader, in any letter case.
pub fn is_mod_loader(loader: &str) -> (r: bool)
    ensures
        r == is_loader_name(loader@),
{
    let lowered = to_lower(loader);
    known_loader(lowered.as_str())
}

impl ModFile {
    /// Whether the file is tagged with the game version `ver`, in any letter
    /// case.
    pub fn has_version(&self, ver: &str) -> (r: bool)
        ensures
            r == has_tag(self@.versions, ver@),
    {
        let wanted = to_lower(ver);
        let mut i: usize = 0;
        while i < self.versions.len()
            invariant
                i <= self.versions.len(),
                wanted@ == lowercase(ver@),
                forall|j: int| 0 <= j < i ==> !same_ignoring_case(#[trigger] self@.versions[j], ver@),
            decreases self.versions.len() - i,
        {
            let tag = to_lower(self.versions[i].as_str());
            if tag == wanted {
                assert(same_ignoring_case(self@.versions[i as int], ver@));
                return true;
            }
            i += 1;
        }
        false
    }

    /// Whether the file may be used with `loader`, by the rule of
    /// [`loader_fits`].
    pub fn has_mod_loader(&self, loader: &str) -> (r: bool)
        ensures
            r == loader_fits(self@.versions, loader@),
    {
        if self.versions.len() < 2 {
            return true;
        }
        let first = self.versions[0].as_str();
        assert(self@.versions[0] == first@);
        if !is_mod_loader(first) {
            return true;
        }
        eq_ignore_case(first, loader)
    }

    /// Whether the file is tagged with the game version `ver`, in any letter
    /// case. The same test as [`ModFile::has_version`].
    pub fn contains_version(&self, ver: &str) -> (r: bool)
        ensures
            r == has_tag(self@.versions, ver@),
    {
        self.has_version(ver)
    }

    /// Whether the file may be used with `loader`. The same test as
    /// [`ModFile::has_mod_loader`].
    pub fn has_loader(&self, loader: &str) -> (r: bool)
        ensures
            r == loader_fits(self@.versions, loader@),
    {
        self.has_mod_loader(loader)
    }

    /// Whether the file may be used with `loader`. The same test as
    /// [`ModFile::has_mod_loader`].
    pub fn contains_mod_loader(&self, loader: &str) -> (r: bool)
        ensures
            r == loader_fits(self@.versions, loader@),
    {
        self.has_mod_loader(loader)
    }

    /// Whether the file fits a game version and a loader; an absent one
    /// excludes nothing.
    pub fn fits(&self, version: &Option<String>, loader: &Option<String>) -> (r: bool)
        ensures
            r == compatible(self@.versions, opt_text(*version), opt_text(*loader)),
    {
        let version_ok = match version {
            Some(v) => self.has_version(v.as_str()),
            None => true,
        };
        if !version_ok {
            return false;
        }
        match loader {
            Some(l) => self.has_mod_loader(l.as_str()),
            None => true,
        }
    }
}

} // verus!
