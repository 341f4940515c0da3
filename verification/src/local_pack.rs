//! A pack as the local database keeps it: mods from the registry beside
//! files from anywhere.

use vstd::prelude::*;
use crate::models::{FileDate, ModEntry};
use crate::resolver::{fresh, lemma_fresh_push};

verus! {

/// A mod that is a file at an address.
#[derive(Debug)]
pub struct UrlSource {
    pub url: String,
}

impl Clone for UrlSource {
    fn clone(&self) -> (r: Self)
        ensures
            r == *self,
    {
        UrlSource { url: self.url.clone() }
    }
}

/// A mod that is a package of the registry, with what is known of the file
/// that was installed of it.
#[derive(Debug)]
pub struct CurseForgeSource {
    pub id: i64,
    pub date: Option<FileDate>,
    pub filename: Option<String>,
}

impl Clone for CurseForgeSource {
    fn clone(&self) -> (r: Self)
        ensures
            r == *self,
    {
        let filename = match &self.filename {
            Some(f) => Some(f.clone()),
            None => None,
        };
        CurseForgeSource { id: self.id, date: self.date, filename }
    }
}

/// One mod of a local pack.
#[derive(Debug)]
pub enum LocalMod {
    Url(UrlSource),
    CurseForge(CurseForgeSource),
}

impl LocalMod {
    /// The mod is the package `id` of the registry.
    pub open spec fn is_package(self, id: i64) -> bool {
        self matches LocalMod::CurseForge(source) && source.id == id
    }

    /// Whether the mod is a package of the registry.
    pub fn is_curseforge(&self) -> (r: bool)
        ensures
            r == (self is CurseForge),
    {
        match self {
            LocalMod::CurseForge(_) => true,
            _ => false,
        }
    }

    /// The package that the mod is. The mod must be one.
    pub fn to_curseforge_source(&self) -> (r: CurseForgeSource)
        requires
            self is CurseForge,
        ensures
            *self == LocalMod::CurseForge(r),
    {
        match self {
            LocalMod::CurseForge(source) => source.clone(),
            LocalMod::Url(_) => vstd::pervasive::unreached(),
        }
    }

    /// The file that the mod is. The mod must be one.
    pub fn to_url_source(&self) -> (r: UrlSource)
        requires
            self is Url,
        ensures
            *self == LocalMod::Url(r),
    {
        match self {
            LocalMod::Url(source) => source.clone(),
            LocalMod::CurseForge(_) => vstd::pervasive::unreached(),
        }
    }
}

/// A local pack: its name, the game version and loader it is for, and its
/// mods.
#[derive(Debug)]
pub struct LocalModPack {
    pub name: String,
    pub mods: Vec<LocalMod>,
    pub version: String,
    pub loader: String,
}

/// The position `i` holds the package `id`, and no earlier position does.
pub open spec fn is_first_package(mods: Seq<LocalMod>, id: i64, i: int) -> bool {
    &&& 0 <= i < mods.len()
    &&& mods[i].is_package(id)
    &&& forall|j: int| 0 <= j < i ==> !(#[trigger] mods[j]).is_package(id)
}

/// The packages of the registry among the mods.
pub open spec fn packages_of(mods: Seq<LocalMod>) -> Set<i64> {
    Set::new(|id: i64| exists|i: int| 0 <= i < mods.len() && (#[trigger] mods[i]).is_package(id))
}

/// The ids of the mods that are packages of the registry, in their order.
pub open spec fn package_ids_of(mods: Seq<LocalMod>) -> Seq<i64>
    decreases mods.len(),
{
    if mods.len() == 0 {
        Seq::empty()
    } else {
        match mods.last() {
            LocalMod::CurseForge(source) => package_ids_of(mods.drop_last()).push(source.id),
            LocalMod::Url(_) => package_ids_of(mods.drop_last()),
        }
    }
}

/// The mods that stand for newly added packages, of which nothing is
/// installed yet.
pub open spec fn new_packages(ids: Seq<i64>) -> Seq<LocalMod> {
    Seq::new(
        ids.len(),
        |i: int| LocalMod::CurseForge(CurseForgeSource { id: ids[i], date: None, filename: None }),
    )
}

/// The ids of the search results that are looked at when up to `take_n` of
/// them are added to a pack: the first `take_n` in the order shown, which
/// is the reverse of the order given unless `direct_order` is set.
pub open spec fn looked_at(ids: Seq<i64>, take_n: u64, direct_order: bool) -> Seq<i64> {
    let shown = if direct_order {
        ids
    } else {
        ids.reverse()
    };
    if take_n < shown.len() {
        shown.take(take_n as int)
    } else {
        shown
    }
}

/// The ids of a list of search results.
pub open spec fn entry_ids(results: Seq<ModEntry>) -> Seq<i64> {
    Seq::new(results.len(), |i: int| results[i].id)
}

/// Adding packages to a pack makes them packages of the pack.
pub proof fn lemma_packages_added(mods: Seq<LocalMod>, ids: Seq<i64>)
    ensures
        forall|id: i64| #[trigger]
            packages_of(mods + new_packages(ids)).contains(id) <==> (packages_of(mods).contains(
                id,
            ) || ids.contains(id)),
{
    let all = mods + new_packages(ids);
    assert forall|id: i64| #[trigger]
        packages_of(all).contains(id) <==> (packages_of(mods).contains(id) || ids.contains(
            id,
        )) by {
        if packages_of(mods).contains(id) {
            let i = choose|i: int| 0 <= i < mods.len() && (#[trigger] mods[i]).is_package(id);
            assert(all[i].is_package(id));
        }
        if ids.contains(id) {
            let i = choose|i: int| 0 <= i < ids.len() && ids[i] == id;
            assert(all[mods.len() + i].is_package(id));
        }
        if packages_of(all).contains(id) {
            let i = choose|i: int| 0 <= i < all.len() && (#[trigger] all[i]).is_package(id);
            if i < mods.len() {
                assert(mods[i].is_package(id));
            } else {
                assert(new_packages(ids)[i - mods.len()].is_package(id));
                assert(ids[i - mods.len()] == id);
            }
        }
    }
}

impl LocalModPack {
    /// A pack without mods.
    pub fn new(name: String, version: String, loader: String) -> (r: Self)
        ensures
            r.name == name,
            r.version == version,
            r.loader == loader,
            r.mods@ == Seq::<LocalMod>::empty(),
    {
        LocalModPack { mods: Vec::new(), name, version, loader }
    }

    /// The position of the first mod that is the package `id`.
    pub fn position_of(&self, id: i64) -> (r: Option<usize>)
        ensures
            match r {
                Some(i) => is_first_package(self.mods@, id, i as int),
                None => !packages_of(self.mods@).contains(id),
            },
    {
        let mut i: usize = 0;
        while i < self.mods.len()
            invariant
                i <= self.mods.len(),
                forall|j: int| 0 <= j < i ==> !(#[trigger] self.mods@[j]).is_package(id),
            decreases self.mods.len() - i,
        {
            let found = match &self.mods[i] {
                LocalMod::CurseForge(source) => source.id == id,
                _ => false,
            };
            if found {
                return Some(i);
            }
            i = i + 1;
        }
        None
    }

    /// The first mod that is the package `id`.
    pub fn by_id(&self, id: i64) -> (r: Option<&LocalMod>)
        ensures
            match r {
                Some(m) => exists|i: int| is_first_package(self.mods@, id, i) && *m == self.mods@[i],
                None => !packages_of(self.mods@).contains(id),
            },
    {
        match self.position_of(id) {
            Some(i) => Some(&self.mods[i]),
            None => None,
        }
    }

    /// The first mod that is the package `id`, to be changed in place.
    pub fn by_id_mut(&mut self, id: i64) -> (r: Option<&mut LocalMod>)
        ensures
            match r {
                Some(m) => exists|i: int|
                    is_first_package(old(self).mods@, id, i) && *m == old(self).mods@[i]
                        && final(self).mods@ == old(self).mods@.update(i, *final(m)),
                None => !packages_of(old(self).mods@).contains(id) && final(self).mods@ == old(
                    self,
                ).mods@,
            },
            final(self).name == old(self).name,
            final(self).version == old(self).version,
            final(self).loader == old(self).loader,
    {
        match self.position_of(id) {
            Some(i) => Some(&mut self.mods[i]),
            None => None,
        }
    }

    /// The ids of the mods that are packages of the registry, in their
    /// order: the roots of a resolution.
    pub fn package_ids(&self) -> (r: Vec<i64>)
        ensures
            r@ == package_ids_of(self.mods@),
    {
        let mut out: Vec<i64> = Vec::new();
        let mut i: usize = 0;
        assert(self.mods@.take(0) =~= Seq::<LocalMod>::empty());
        while i < self.mods.len()
            invariant
                i <= self.mods.len(),
                out@ == package_ids_of(self.mods@.take(i as int)),
            decreases self.mods.len() - i,
        {
            proof {
                assert(self.mods@.take(i + 1).drop_last() =~= self.mods@.take(i as int));
            }
            match &self.mods[i] {
                LocalMod::CurseForge(source) => {
                    out.push(source.id);
                },
                LocalMod::Url(_) => {},
            }
            i = i + 1;
        }
        assert(self.mods@.take(self.mods@.len() as int) =~= self.mods@);
        out
    }

    /// Adds up to `take_n` search results to the pack, in the order shown,
    /// passing over those that the pack has already. Returns the ids that
    /// were added, in the order in which they were.
    pub fn add_found(&mut self, results: &Vec<ModEntry>, take_n: u64, direct_order: bool) -> (r:
        Vec<i64>)
        ensures
            r@ == fresh(
                looked_at(entry_ids(results@), take_n, direct_order),
                packages_of(old(self).mods@),
            ),
            final(self).mods@ == old(self).mods@ + new_packages(r@),
            final(self).name == old(self).name,
            final(self).version == old(self).version,
            final(self).loader == old(self).loader,
    {
        let ghost before = self.mods@;
        let ghost taken = packages_of(before);
        let ghost visit = looked_at(entry_ids(results@), take_n, direct_order);
        let n = results.len();
        let mut added: Vec<i64> = Vec::new();
        let mut k: usize = 0;
        proof {
            assert(visit.take(0) =~= Seq::<i64>::empty());
            assert(before + new_packages(added@) =~= before);
        }
        while k < n && (k as u64) < take_n
            invariant
                k <= n,
                n == results@.len(),
                k <= visit.len(),
                visit == looked_at(entry_ids(results@), take_n, direct_order),
                taken == packages_of(before),
                added@ == fresh(visit.take(k as int), taken),
                self.mods@ == before + new_packages(added@),
                self.name == old(self).name,
                self.version == old(self).version,
                self.loader == old(self).loader,
            decreases n - k,
        {
            let index = if direct_order {
                k
            } else {
                n - k - 1
            };
            let id = results[index].id;
            proof {
                assert(visit[k as int] == id);
                assert(visit.take(k + 1) =~= visit.take(k as int).push(id));
                lemma_fresh_push(visit.take(k as int), taken, id);
                lemma_packages_added(before, added@);
            }
            if self.position_of(id).is_none() {
                self.mods.push(
                    LocalMod::CurseForge(CurseForgeSource { id, date: None, filename: None }),
                );
                added.push(id);
                assert(self.mods@ =~= before + new_packages(added@));
            }
            k = k + 1;
        }
        assert(visit.take(k as int) =~= visit);
        added
    }
}

/// How many search results are added to a pack: `add_n` where it is not
/// zero, all of them where `add_all` is set, and otherwise none.
pub fn take_count(add_n: u64, add_all: bool) -> (r: Option<u64>)
    ensures
        r == if add_n != 0 {
            Some(add_n)
        } else if add_all {
            Some(u64::MAX)
        } else {
            None
        },
{
    if add_n != 0 {
        Some(add_n)
    } else if add_all {
        Some(u64::MAX)
    } else {
        None
    }
}

} // verus!
