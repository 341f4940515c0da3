use mcget::error::Error;
use mcget::models::{is_mod_loader, known_loader, Dependency, FileDate, ModFile};
use mcget::objects::{
    choose_file, fitting_files, latest_file, latest_position, newest_position, GameVersion,
    ModExt,
};

fn tagged(id: i64, secs: i64, tags: &[&str]) -> ModFile {
    ModFile {
        id,
        name: format!("mod {}", id),
        filename: format!("mod-{}.jar", id),
        download_url: format!("https://files.example/mod-{}.jar", id),
        date: FileDate { secs, nanos: 0 },
        versions: tags.iter().map(|t| t.to_string()).collect(),
        dependencies: Vec::new(),
    }
}

fn ids(files: &[ModFile]) -> Vec<i64> {
    files.iter().map(|f| f.id).collect()
}

#[test]
fn loader_names_are_known_in_any_case() {
    assert!(is_mod_loader("forge"));
    assert!(is_mod_loader("Fabric"));
    assert!(is_mod_loader("LITELOADER"));
    assert!(!is_mod_loader("1.19.2"));
    assert!(!is_mod_loader("quilt"));
    assert!(!is_mod_loader(""));
}

#[test]
fn known_loader_takes_lowered_text_only() {
    assert!(known_loader("forge"));
    assert!(known_loader("fabric"));
    assert!(known_loader("liteloader"));
    assert!(!known_loader("Forge"));
}

#[test]
fn version_is_found_in_any_case() {
    let f = tagged(1, 0, &["Forge", "1.19.2-Snapshot"]);
    assert!(f.has_version("1.19.2-snapshot"));
    assert!(f.has_version("1.19.2-SNAPSHOT"));
    assert!(f.has_version("forge"));
    assert!(!f.has_version("1.19"));
    assert!(f.contains_version("1.19.2-snapshot"));
    assert!(!tagged(2, 0, &[]).has_version("1.19.2"));
}

#[test]
fn compatible_without_loader_iff_version_tag_present() {
    let game = GameVersion::new("1.19.2".to_string());
    assert!(game.admits(&tagged(1, 0, &["1.19.2"])));
    assert!(game.admits(&tagged(1, 0, &["Fabric", "1.18", "1.19.2"])));
    assert!(!game.admits(&tagged(1, 0, &["Fabric", "1.18"])));
    assert!(!game.admits(&tagged(1, 0, &[])));
}

// The loader rule goes by the position of a tag, which approximates what
// loaders a file is for: a loader named after the first tag is not seen.
#[test]
fn loader_rule_reads_the_first_tag_only() {
    // Fewer than two tags: nothing to exclude the file by.
    assert!(tagged(1, 0, &[]).has_mod_loader("forge"));
    assert!(tagged(1, 0, &["Fabric"]).has_mod_loader("forge"));
    // The first tag names a loader: it must be the one asked for.
    assert!(tagged(1, 0, &["Forge", "1.19.2"]).has_mod_loader("forge"));
    assert!(!tagged(1, 0, &["Fabric", "1.19.2"]).has_mod_loader("forge"));
    // The first tag names no loader: the file is accepted, whatever follows.
    assert!(tagged(1, 0, &["1.19.2", "Fabric"]).has_mod_loader("forge"));
}

#[test]
fn context_with_loader_applies_both_rules() {
    let game = GameVersion::new("1.19.2".to_string()).with_loader("Forge".to_string());
    assert_eq!(game.version, "1.19.2");
    assert_eq!(game.mod_loader, Some("Forge".to_string()));
    assert!(game.admits(&tagged(1, 0, &["forge", "1.19.2"])));
    assert!(!game.admits(&tagged(1, 0, &["fabric", "1.19.2"])));
    assert!(!game.admits(&tagged(1, 0, &["forge", "1.18"])));
    let copy = game.clone();
    assert_eq!(copy.version, game.version);
    assert_eq!(copy.mod_loader, game.mod_loader);
}

#[test]
fn every_loader_test_follows_the_one_rule() {
    // The first tag names the loader asked for, in another letter case.
    assert!(tagged(1, 0, &["Forge", "1.12.2"]).has_loader("forge"));
    assert!(tagged(1, 0, &["Forge", "1.12.2"]).contains_mod_loader("forge"));
    // The first tag names another loader; a later tag is not read.
    assert!(!tagged(1, 0, &["Fabric", "1.12.2", "forge"]).has_loader("forge"));
    assert!(!tagged(1, 0, &["Fabric", "1.12.2", "forge"]).contains_mod_loader("forge"));
    // The first tag names no loader: the file is accepted for any.
    assert!(tagged(1, 0, &["1.12.2", "Forge"]).has_loader("fabric"));
    assert!(tagged(1, 0, &["1.12.2", "Forge"]).contains_mod_loader("fabric"));
    // Fewer than two tags exclude nothing.
    assert!(tagged(1, 0, &["Fabric"]).has_loader("forge"));
    assert!(tagged(1, 0, &[]).contains_mod_loader("forge"));
}

#[test]
fn loader_tests_agree_on_every_tag_list_tried() {
    let lists: [&[&str]; 7] = [
        &[],
        &["forge"],
        &["Forge", "1.19.2"],
        &["FABRIC", "Forge"],
        &["LiteLoader", "1.12"],
        &["1.19.2", "Fabric", "Forge"],
        &["quilt", "forge"],
    ];
    for tags in lists.iter() {
        for loader in ["forge", "Fabric", "liteloader", "quilt"].iter() {
            let f = tagged(1, 0, tags);
            let expected = f.has_mod_loader(loader);
            assert_eq!(f.has_loader(loader), expected);
            assert_eq!(f.contains_mod_loader(loader), expected);
        }
    }
}

#[test]
fn fits_ignores_absent_parts_of_the_context() {
    let f = tagged(1, 0, &["Fabric", "1.19.2"]);
    assert!(f.fits(&None, &None));
    assert!(f.fits(&Some("1.19.2".to_string()), &None));
    assert!(!f.fits(&Some("1.18".to_string()), &None));
    assert!(f.fits(&None, &Some("fabric".to_string())));
    assert!(!f.fits(&None, &Some("forge".to_string())));
    assert!(!f.fits(&Some("1.19.2".to_string()), &Some("forge".to_string())));
}

#[test]
fn required_kind_is_three() {
    assert!(Dependency { id: 1, dep_type: 3 }.is_required());
    assert!(!Dependency { id: 1, dep_type: 2 }.is_required());
    assert!(!Dependency { id: 3, dep_type: 1 }.is_required());
}

#[test]
fn dates_order_by_seconds_then_nanoseconds() {
    let a = FileDate { secs: 10, nanos: 5 };
    let b = FileDate { secs: 10, nanos: 6 };
    let c = FileDate { secs: -1, nanos: 999 };
    assert!(b.not_before(&a));
    assert!(!a.not_before(&b));
    assert!(a.not_before(&a));
    assert!(a.not_before(&c));
    assert!(!c.not_before(&a));
}

#[test]
fn latest_of_3_1_4_1_5_is_5() {
    let files: Vec<ModFile> =
        [3, 1, 4, 1, 5].iter().map(|id| tagged(*id, 0, &["1.19.2"])).collect();
    assert_eq!(files.latest().unwrap().id, 5);
    assert_eq!(latest_position(&files), Some(4));
}

#[test]
fn latest_of_nothing_is_not_found() {
    let files: Vec<ModFile> = Vec::new();
    assert!(matches!(files.latest(), Err(Error::NotFound)));
    assert_eq!(latest_position(&files), None);
    assert_eq!(newest_position(&files), None);
    assert!(matches!(latest_file(files), Err(Error::NotFound)));
}

#[test]
fn latest_takes_the_last_of_equal_ids() {
    let mut files = vec![tagged(7, 1, &[]), tagged(2, 2, &[]), tagged(7, 3, &[])];
    files[0].filename = "first.jar".to_string();
    files[2].filename = "second.jar".to_string();
    assert_eq!(files.latest().unwrap().filename, "second.jar");
    assert_eq!(latest_position(&files), Some(2));
}

#[test]
fn latest_file_goes_by_date() {
    let files = vec![tagged(9, 100, &[]), tagged(1, 300, &[]), tagged(5, 200, &[])];
    assert_eq!(newest_position(&files), Some(1));
    assert_eq!(latest_file(files).unwrap().id, 1);
    let mut same = vec![tagged(1, 50, &[]), tagged(2, 50, &[])];
    same[1].date.nanos = 0;
    assert_eq!(latest_file(same).unwrap().id, 2);
}

#[test]
fn search_mods_keeps_order_and_borrows() {
    let files = vec![
        tagged(1, 0, &["Forge", "1.19.2"]),
        tagged(2, 0, &["Fabric", "1.19.2"]),
        tagged(3, 0, &["1.19.2"]),
        tagged(4, 0, &["Forge", "1.18"]),
    ];
    let found: Vec<i64> = files.search_mods("1.19.2", Some("forge")).iter().map(|f| f.id).collect();
    assert_eq!(found, vec![1, 3]);
    let any: Vec<i64> = files.search_mods("1.19.2", None).iter().map(|f| f.id).collect();
    assert_eq!(any, vec![1, 2, 3]);
}

#[test]
fn where_mods_hands_the_fitting_files_out() {
    let files = vec![
        tagged(1, 0, &["Forge", "1.19.2"]),
        tagged(2, 0, &["Fabric", "1.19.2"]),
        tagged(3, 0, &["1.19.2"]),
    ];
    let loader = "Fabric".to_string();
    assert_eq!(ids(&files.where_mods("1.19.2", Some(&loader))), vec![2, 3]);
}

#[test]
fn fitting_files_and_choice() {
    let files = vec![
        tagged(1, 500, &["Forge", "1.18"]),
        tagged(2, 100, &["Forge", "1.19.2"]),
        tagged(3, 300, &["Forge", "1.19.2"]),
        tagged(4, 900, &["Fabric", "1.19.2"]),
    ];
    let version = Some("1.19.2".to_string());
    let loader = Some("forge".to_string());
    let fit = fitting_files(files, &version, &loader);
    assert_eq!(ids(&fit), vec![2, 3]);
    assert_eq!(choose_file(fit, &version, &loader).unwrap().id, 3);
    let none = vec![tagged(1, 500, &["Forge", "1.18"])];
    assert!(matches!(choose_file(none, &version, &loader), Err(Error::NotFound)));
}

#[test]
fn retryable_errors_are_transport_and_parse() {
    assert!(Error::Transport.is_retryable());
    assert!(Error::Parse.is_retryable());
    assert!(!Error::NotFound.is_retryable());
    assert!(!Error::Write.is_retryable());
    assert!(!Error::RegistryUnavailable.is_retryable());
}
