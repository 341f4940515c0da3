//! A mod pack as its description file lists it.

use vstd::prelude::*;

verus! {

/// One mod of a pack: a package of the registry, by its id, or a file, by
/// its address.
#[derive(Debug)]
pub struct ModpackMod {
    pub id: Option<usize>,
    pub url: Option<String>,
}

impl ModpackMod {
    /// The id of the mod, and zero where it has none.
    pub open spec fn id_or_zero(self) -> usize {
        match self.id {
            Some(id) => id,
            None => 0,
        }
    }

    /// A mod that is a package of the registry.
    pub fn with_id(id: usize) -> (r: ModpackMod)
        ensures
            r == (ModpackMod { id: Some(id), url: None }),
    {
        ModpackMod { id: Some(id), url: None }
    }

    /// A mod that is a file at an address.
    pub fn with_url(url: String) -> (r: ModpackMod)
        ensures
            r == (ModpackMod { id: None, url: Some(url) }),
    {
        ModpackMod { id: None, url: Some(url) }
    }
}

/// A pack: its name, the loader and game version it is for, and its mods.
#[derive(Debug)]
pub struct MinecraftModpack {
    pub name: String,
    pub loader: String,
    pub version: String,
    pub mods: Vec<ModpackMod>,
}

/// Some mod of the list has the id `id`; a mod without an id counts as
/// having the id zero.
pub open spec fn lists_modid(mods: Seq<ModpackMod>, id: usize) -> bool {
    exists|i: int| 0 <= i < mods.len() && (#[trigger] mods[i]).id_or_zero() == id
}

/// The ids of the mods that have one, in their order.
pub open spec fn ids_listed(mods: Seq<ModpackMod>) -> Seq<usize>
    decreases mods.len(),
{
    if mods.len() == 0 {
        Seq::empty()
    } else {
        match mods.last().id {
            Some(id) => ids_listed(mods.drop_last()).push(id),
            None => ids_listed(mods.drop_last()),
        }
    }
}

impl MinecraftModpack {
    /// Whether the pack lists the package `id`.
    pub fn has_modid(&self, id: usize) -> (r: bool)
        ensures
            r == lists_modid(self.mods@, id),
    {
        let mut i: usize = 0;
        while i < self.mods.len()
            invariant
                i <= self.mods.len(),
                forall|j: int| 0 <= j < i ==> (#[trigger] self.mods@[j]).id_or_zero() != id,
            decreases self.mods.len() - i,
        {
            let listed = match self.mods[i].id {
                Some(x) => x,
                None => 0,
            };
            if listed == id {
                assert(self.mods@[i as int].id_or_zero() == id);
                return true;
            }
            i = i + 1;
        }
        false
    }

    /// Adds the package `id` to the pack unless the pack lists it already,
    /// and says whether it was added.
    pub fn add_modid(&mut self, id: usize) -> (r: bool)
        ensures
            r == !lists_modid(old(self).mods@, id),
            final(self).mods@ == if r {
                old(self).mods@.push(ModpackMod { id: Some(id), url: None })
            } else {
                old(self).mods@
            },
            final(self).name == old(self).name,
            final(self).loader == old(self).loader,
            final(self).version == old(self).version,
    {
        if self.has_modid(id) {
            return false;
        }
        self.mods.push(ModpackMod::with_id(id));
        true
    }

    /// The ids of the mods that are packages of the registry, in their
    /// order.
    pub fn package_ids(&self) -> (r: Vec<usize>)
        ensures
            r@ == ids_listed(self.mods@),
    {
        let mut out: Vec<usize> = Vec::new();
        let mut i: usize = 0;
        assert(self.mods@.take(0) =~= Seq::<ModpackMod>::empty());
        while i < self.mods.len()
            invariant
                i <= self.mods.len(),
                out@ == ids_listed(self.mods@.take(i as int)),
            decreases self.mods.len() - i,
        {
            proof {
                assert(self.mods@.take(i + 1).drop_last() =~= self.mods@.take(i as int));
            }
            match self.mods[i].id {
                Some(id) => {
                    out.push(id);
                },
                None => {},
            }
            i = i + 1;
        }
        assert(self.mods@.take(self.mods@.len() as int) =~= self.mods@);
        out
    }
}

/// A pack together with the file that describes it.
#[derive(Debug)]
pub struct ModpackCfg {
    /// The file that the pack was read from and is stored to.
    pub file: String,
    pub mc: MinecraftModpack,
}

impl ModpackCfg {
    /// A pack without mods.
    pub fn new(name: String, version: String, loader: String, file: String) -> (r: ModpackCfg)
        ensures
            r.file == file,
            r.mc.name == name,
            r.mc.version == version,
            r.mc.loader == loader,
            r.mc.mods@ == Seq::<ModpackMod>::empty(),
    {
        ModpackCfg { file, mc: MinecraftModpack { name, version, loader, mods: Vec::new() } }
    }
}

/// One mod of a pack that `Modpack.yaml` describes: a package of the
/// registry.
#[derive(Debug)]
pub struct ModConfig {
    pub id: usize,
}

/// A pack as `Modpack.yaml` describes it.
#[derive(Debug)]
pub struct MinecraftConfig {
    pub version: String,
    pub mod_loader: String,
    pub mods: Vec<ModConfig>,
    pub name: String,
}

/// What `Modpack.yaml` in the working directory holds.
#[derive(Debug)]
pub struct ModpackConfig {
    pub modpack: MinecraftConfig,
}

impl ModpackConfig {
    /// The same pack under another name.
    pub fn with_name(self, name: String) -> (r: Self)
        ensures
            r.modpack.name == name,
            r.modpack.version == self.modpack.version,
            r.modpack.mod_loader == self.modpack.mod_loader,
            r.modpack.mods == self.modpack.mods,
    {
        let mut this = self;
        this.modpack.name = name;
        this
    }
}

impl Default for ModpackConfig {
    /// A pack without a name and without mods, for Forge on 1.12.2.
    fn default() -> (r: Self)
        ensures
            r.modpack.name@ == Seq::<char>::empty(),
            r.modpack.version@ == "1.12.2"@,
            r.modpack.mod_loader@ == "Forge"@,
            r.modpack.mods@ == Seq::<ModConfig>::empty(),
    {
        ModpackConfig {
            modpack: MinecraftConfig {
                name: String::new(),
                version: "1.12.2".to_owned(),
                mod_loader: "Forge".to_owned(),
                mods: Vec::new(),
            },
        }
    }
}

} // verus!
