use mcget::cli_helpers::{dump_mod_loaders, with_first, Capitalizer};
use mcget::config::{default_minecraft_path, get_config_location, Config, Platform};
use mcget::fmt::{choice, selected, separator, shorten, to_yaml_ext, with_yaml_ext};
use mcget::local_pack::{
    take_count, CurseForgeSource, LocalMod, LocalModPack, UrlSource,
};
use mcget::models::{FileDate, ModEntry};
use mcget::modpack::{MinecraftModpack, ModpackCfg, ModpackConfig, ModpackMod};
use mcget::objects::Mod;
use mcget::resolver_meta::LocalDependency;
use std::collections::hash_map::DefaultHasher;
use std::hash::{Hash, Hasher};

fn found(id: i64) -> ModEntry {
    ModEntry {
        id,
        name: format!("entry {}", id),
        summary: String::new(),
        mod_loaders: Vec::new(),
        curseforge_url: String::new(),
    }
}

fn package(id: i64) -> LocalMod {
    LocalMod::CurseForge(CurseForgeSource { id, date: None, filename: None })
}

fn local_ids(pack: &LocalModPack) -> Vec<i64> {
    pack.package_ids()
}

#[test]
fn modpack_mod_is_a_package_or_an_address() {
    let by_id = ModpackMod::with_id(238222);
    assert_eq!(by_id.id, Some(238222));
    assert_eq!(by_id.url, None);
    let by_url = ModpackMod::with_url("https://host/mod.jar".to_string());
    assert_eq!(by_url.id, None);
    assert_eq!(by_url.url, Some("https://host/mod.jar".to_string()));
}

#[test]
fn has_modid_counts_a_missing_id_as_zero() {
    let cfg = ModpackCfg::new(
        "pack".to_string(),
        "1.19.2".to_string(),
        "forge".to_string(),
        "pack.yaml".to_string(),
    );
    assert_eq!(cfg.file, "pack.yaml");
    assert_eq!(cfg.mc.name, "pack");
    assert_eq!(cfg.mc.version, "1.19.2");
    assert_eq!(cfg.mc.loader, "forge");
    let mut pack: MinecraftModpack = cfg.mc;
    assert!(!pack.has_modid(5));
    assert!(!pack.has_modid(0));
    pack.mods.push(ModpackMod::with_id(5));
    pack.mods.push(ModpackMod::with_url("https://host/mod.jar".to_string()));
    assert!(pack.has_modid(5));
    assert!(pack.has_modid(0));
    assert!(!pack.has_modid(6));
}

#[test]
fn add_modid_adds_once() {
    let mut pack = ModpackCfg::new(String::new(), String::new(), String::new(), String::new()).mc;
    assert!(pack.add_modid(7));
    assert!(!pack.add_modid(7));
    assert!(pack.add_modid(8));
    pack.mods.push(ModpackMod::with_url("u".to_string()));
    assert!(!pack.add_modid(0));
    assert_eq!(pack.package_ids(), vec![7, 8]);
    assert_eq!(pack.mods.len(), 3);
}

#[test]
fn modpack_yaml_defaults_to_forge_on_1_12_2() {
    let pack = ModpackConfig::default();
    assert_eq!(pack.modpack.name, "");
    assert_eq!(pack.modpack.version, "1.12.2");
    assert_eq!(pack.modpack.mod_loader, "Forge");
    assert!(pack.modpack.mods.is_empty());
    let named = pack.with_name("mine".to_string());
    assert_eq!(named.modpack.name, "mine");
    assert_eq!(named.modpack.version, "1.12.2");
    assert_eq!(named.modpack.mod_loader, "Forge");
}

#[test]
fn local_mod_kinds() {
    let cf = LocalMod::CurseForge(CurseForgeSource {
        id: 9,
        date: Some(FileDate { secs: 1, nanos: 2 }),
        filename: Some("nine.jar".to_string()),
    });
    let url = LocalMod::Url(UrlSource { url: "https://host/a.jar".to_string() });
    assert!(cf.is_curseforge());
    assert!(!url.is_curseforge());
    let source = cf.to_curseforge_source();
    assert_eq!(source.id, 9);
    assert_eq!(source.date, Some(FileDate { secs: 1, nanos: 2 }));
    assert_eq!(source.filename, Some("nine.jar".to_string()));
    assert_eq!(url.to_url_source().url, "https://host/a.jar");
}

#[test]
fn by_id_finds_the_first_package_with_the_id() {
    let mut pack =
        LocalModPack::new("p".to_string(), "1.19.2".to_string(), "Forge".to_string());
    assert_eq!(pack.name, "p");
    assert_eq!(pack.version, "1.19.2");
    assert_eq!(pack.loader, "Forge");
    assert!(pack.by_id(1).is_none());
    pack.mods.push(LocalMod::Url(UrlSource { url: "https://host/1".to_string() }));
    pack.mods.push(package(4));
    pack.mods.push(LocalMod::CurseForge(CurseForgeSource {
        id: 4,
        date: None,
        filename: Some("again.jar".to_string()),
    }));
    pack.mods.push(package(1));
    assert_eq!(pack.position_of(4), Some(1));
    assert_eq!(pack.position_of(1), Some(3));
    assert_eq!(pack.position_of(2), None);
    match pack.by_id(4) {
        Some(LocalMod::CurseForge(source)) => assert_eq!(source.filename, None),
        other => panic!("unexpected {:?}", other),
    }
    assert_eq!(local_ids(&pack), vec![4, 4, 1]);
}

#[test]
fn by_id_mut_changes_the_mod_in_place() {
    let mut pack = LocalModPack::new(String::new(), String::new(), String::new());
    pack.mods.push(package(3));
    pack.mods.push(package(8));
    assert!(pack.by_id_mut(5).is_none());
    match pack.by_id_mut(8) {
        Some(LocalMod::CurseForge(source)) => {
            source.filename = Some("eight.jar".to_string());
            source.date = Some(FileDate { secs: 7, nanos: 0 });
        }
        other => panic!("unexpected {:?}", other),
    }
    match &pack.mods[1] {
        LocalMod::CurseForge(source) => {
            assert_eq!(source.filename, Some("eight.jar".to_string()));
            assert_eq!(source.date, Some(FileDate { secs: 7, nanos: 0 }));
        }
        other => panic!("unexpected {:?}", other),
    }
    assert_eq!(local_ids(&pack), vec![3, 8]);
}

#[test]
fn add_found_takes_the_first_n_in_the_order_shown() {
    let results = vec![found(1), found(2), found(3), found(4)];
    let mut direct = LocalModPack::new(String::new(), String::new(), String::new());
    assert_eq!(direct.add_found(&results, 2, true), vec![1, 2]);
    assert_eq!(local_ids(&direct), vec![1, 2]);
    let mut reversed = LocalModPack::new(String::new(), String::new(), String::new());
    assert_eq!(reversed.add_found(&results, 3, false), vec![4, 3, 2]);
    assert_eq!(local_ids(&reversed), vec![4, 3, 2]);
    let mut all = LocalModPack::new(String::new(), String::new(), String::new());
    assert_eq!(all.add_found(&results, u64::MAX, true), vec![1, 2, 3, 4]);
    let mut none = LocalModPack::new(String::new(), String::new(), String::new());
    assert!(none.add_found(&results, 0, true).is_empty());
    assert!(none.mods.is_empty());
}

#[test]
fn add_found_passes_over_what_the_pack_has() {
    let results = vec![found(1), found(2), found(1), found(3)];
    let mut pack = LocalModPack::new(String::new(), String::new(), String::new());
    pack.mods.push(package(2));
    pack.mods.push(LocalMod::Url(UrlSource { url: "u".to_string() }));
    assert_eq!(pack.add_found(&results, 10, true), vec![1, 3]);
    assert_eq!(local_ids(&pack), vec![2, 1, 3]);
    assert_eq!(pack.mods.len(), 4);
    match &pack.mods[2] {
        LocalMod::CurseForge(s) => assert!(s.id == 1 && s.date.is_none() && s.filename.is_none()),
        other => panic!("unexpected {:?}", other),
    }
}

#[test]
fn take_count_follows_the_flags() {
    assert_eq!(take_count(3, false), Some(3));
    assert_eq!(take_count(3, true), Some(3));
    assert_eq!(take_count(0, true), Some(u64::MAX));
    assert_eq!(take_count(0, false), None);
}

#[test]
fn paths_by_platform() {
    assert_eq!(default_minecraft_path(Platform::Unix, "alex"), "/home/alex/.minecraft");
    assert_eq!(
        default_minecraft_path(Platform::MacOs, "alex"),
        "/Users/alex/Library/Application Support/minecraft"
    );
    assert_eq!(
        default_minecraft_path(Platform::Windows, "alex"),
        "C:\\Users\\alex\\AppData\\Roaming\\.minecraft"
    );
    assert_eq!(get_config_location(Platform::Unix, "alex"), "/home/alex/.local/share/mcget");
    assert_eq!(get_config_location(Platform::Unix, "root"), "/root/.local/share/mcget");
    assert_eq!(get_config_location(Platform::MacOs, "root"), "/Users/root/mcget");
    assert_eq!(get_config_location(Platform::Windows, "alex"), "C:\\Users\\alex\\AppData\\mcget");
    assert_eq!(Config::new("/games/mc".to_string()).minecraft_path, "/games/mc");
}

#[test]
fn yaml_extension_is_added_where_there_is_none() {
    assert_eq!(to_yaml_ext("pack"), "pack.yaml");
    assert_eq!(to_yaml_ext("pack.yaml"), "pack.yaml");
    assert_eq!(to_yaml_ext("pack.yml"), "pack.yml");
    assert_eq!(with_yaml_ext("pack", false), "pack.yaml");
    assert_eq!(with_yaml_ext("pack", true), "pack");
}

#[test]
fn summary_is_cut_to_the_terminal() {
    let long = "x".repeat(40);
    assert_eq!(shorten("short", 20), Some("short".to_string()));
    assert_eq!(shorten(&"x".repeat(33), 20), Some("x".repeat(33)));
    assert_eq!(shorten(&"x".repeat(34), 20), Some("xxx...".to_string()));
    assert_eq!(shorten(&long, 17), Some("...".to_string()));
    assert_eq!(shorten(&long, 16), None);
    assert_eq!(shorten(&long, 0), None);
    // Forty bytes of two-byte characters; a cut after three bytes is inside one.
    let accents = "\u{e9}".repeat(20);
    assert_eq!(shorten(&accents, 20), None);
    assert_eq!(shorten(&accents, 21), Some("\u{e9}\u{e9}...".to_string()));
}

#[test]
fn separator_is_one_dash_short_of_the_width() {
    assert_eq!(separator(20), Some("-".repeat(19)));
    assert_eq!(separator(1), Some(String::new()));
    assert_eq!(separator(0), None);
}

#[test]
fn choice_is_numbered_from_one() {
    assert_eq!(choice("1", 3), Some(0));
    assert_eq!(choice("3", 3), Some(2));
    assert_eq!(choice("+2", 3), Some(1));
    assert_eq!(choice("4", 3), None);
    assert_eq!(choice("0", 3), None);
    assert_eq!(choice("-1", 3), None);
    assert_eq!(choice("two", 3), None);
    assert_eq!(choice(" 2", 3), None);
    assert_eq!(choice("", 3), None);
    assert_eq!(choice("1", 0), None);
    assert_eq!(choice("99999999999", 3), None);
    assert_eq!(selected(Some(i32::MIN), 3), None);
    assert_eq!(selected(Some(i32::MAX), usize::MAX), Some(i32::MAX as usize - 1));
    assert_eq!(selected(None, 3), None);
}

#[test]
fn capitalize_raises_the_first_character() {
    assert_eq!("forge".to_string().capitalize(), "Forge");
    assert_eq!("Forge".to_string().capitalize(), "Forge");
    assert_eq!("".to_string().capitalize(), "");
    assert_eq!("\u{df}a".to_string().capitalize(), "SSa");
    assert_eq!("\u{e9}t\u{e9}".to_string().capitalize(), "\u{c9}t\u{e9}");
    assert_eq!(with_first("X".to_string(), "abc"), "Xbc");
}

fn listing(mod_loaders: Option<Vec<String>>) -> Mod {
    Mod {
        id: 1,
        name: "one".to_string(),
        summary: String::new(),
        curseforge: String::new(),
        mod_loaders,
        latest_files: Vec::new(),
    }
}

#[test]
fn loaders_are_listed_one_per_line() {
    assert_eq!(dump_mod_loaders(&listing(None)), "No information");
    assert_eq!(dump_mod_loaders(&listing(Some(Vec::new()))), "");
    assert_eq!(
        dump_mod_loaders(&listing(Some(vec!["Forge".to_string(), "Fabric".to_string()]))),
        "\n\t  - Forge\n\t  - Fabric"
    );
}

fn hash_of(dep: &LocalDependency) -> u64 {
    let mut hasher = DefaultHasher::new();
    dep.hash(&mut hasher);
    hasher.finish()
}

#[test]
fn local_dependencies_are_the_same_by_id() {
    let a = LocalDependency { id: 4, url: "https://host/a".to_string() };
    let b = LocalDependency { id: 4, url: String::new() };
    let c = LocalDependency { id: 5, url: "https://host/a".to_string() };
    assert!(a == b);
    assert!(a != c);
    assert_eq!(hash_of(&a), hash_of(&b));
    let mut plain = DefaultHasher::new();
    4i64.hash(&mut plain);
    assert_eq!(hash_of(&a), plain.finish());
    let copy = a.clone();
    assert_eq!(copy.id, 4);
    assert_eq!(copy.url, "https://host/a");
}
