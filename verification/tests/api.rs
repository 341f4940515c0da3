use mcget::api::{
    files_url, get_files, get_url, lists, search_query, search_results, search_url, FetchStep,
    MAX_ATTEMPTS,
};
use mcget::error::Error;
use mcget::models::{FileDate, ModEntry, ModFile};

fn entry(id: i64, loaders: &[&str]) -> ModEntry {
    ModEntry {
        id,
        name: format!("entry {}", id),
        summary: String::new(),
        mod_loaders: loaders.iter().map(|l| l.to_string()).collect(),
        curseforge_url: format!("https://www.curseforge.com/minecraft/mc-mods/{}", id),
    }
}

fn plain_file(id: i64, tags: &[&str]) -> ModFile {
    ModFile {
        id,
        name: String::new(),
        filename: String::new(),
        download_url: String::new(),
        date: FileDate { secs: 0, nanos: 0 },
        versions: tags.iter().map(|t| t.to_string()).collect(),
        dependencies: Vec::new(),
    }
}

#[test]
fn get_url_joins_base_and_path() {
    assert_eq!(get_url("search", false), "https://addons-ecs.forgesvc.net/api/v2/addon/search");
    assert_eq!(
        get_url("search", true),
        "https://addons-ecs.forgesvc.net/api/v2/addon/search?gameId=432&sectionId=6&"
    );
    assert_eq!(get_url("", false), "https://addons-ecs.forgesvc.net/api/v2/addon/");
}

#[test]
fn files_url_writes_the_id_in_decimal() {
    assert_eq!(files_url(238222), "https://addons-ecs.forgesvc.net/api/v2/addon/238222/files");
    assert_eq!(files_url(0), "https://addons-ecs.forgesvc.net/api/v2/addon/0/files");
    assert_eq!(files_url(-17), "https://addons-ecs.forgesvc.net/api/v2/addon/-17/files");
}

#[test]
fn search_url_percent_encodes_query_and_version() {
    assert_eq!(
        search_url("just enough", &None),
        "https://addons-ecs.forgesvc.net/api/v2/addon/search?gameId=432&sectionId=6&searchFilter=just%20enough"
    );
    assert_eq!(
        search_url("a&b=c", &Some("1.19.2".to_string())),
        "https://addons-ecs.forgesvc.net/api/v2/addon/search?gameId=432&sectionId=6&searchFilter=a%26b%3Dc&gameVersion=1.19.2"
    );
    assert_eq!(
        search_url("caf\u{e9}_~-.", &None),
        "https://addons-ecs.forgesvc.net/api/v2/addon/search?gameId=432&sectionId=6&searchFilter=caf%C3%A9_~-."
    );
}

#[test]
fn search_query_lists_its_parameters_in_order() {
    let pairs = search_query("jei", &None).into_pairs();
    assert_eq!(
        pairs,
        vec![
            ("gameId".to_string(), "432".to_string()),
            ("sectionId".to_string(), "6".to_string()),
            ("searchFilter".to_string(), "jei".to_string()),
        ]
    );
    let with_version = search_query("jei", &Some("1.12.2".to_string())).into_pairs();
    assert_eq!(with_version.len(), 4);
    assert_eq!(with_version[2], ("searchFilter".to_string(), "jei".to_string()));
    assert_eq!(with_version[3], ("gameVersion".to_string(), "1.12.2".to_string()));
}

#[test]
fn lists_compares_letter_for_letter() {
    let all = vec!["Forge".to_string(), "Fabric".to_string()];
    assert!(lists(&all, "Forge"));
    assert!(!lists(&all, "forge"));
    assert!(!lists(&Vec::new(), "Forge"));
}

#[test]
fn search_results_filter_by_loader_and_reverse() {
    let mods = vec![entry(1, &["Forge"]), entry(2, &["Fabric"]), entry(3, &["Forge", "Fabric"])];
    let shown: Vec<i64> =
        search_results(mods, &Some("Forge".to_string()), true).iter().map(|e| e.id).collect();
    assert_eq!(shown, vec![3, 1]);
    let mods = vec![entry(1, &["Forge"]), entry(2, &["Fabric"]), entry(3, &["Forge", "Fabric"])];
    let direct: Vec<i64> =
        search_results(mods, &Some("Fabric".to_string()), false).iter().map(|e| e.id).collect();
    assert_eq!(direct, vec![2, 3]);
    let mods = vec![entry(1, &[]), entry(2, &[])];
    let all: Vec<i64> = search_results(mods, &None, true).iter().map(|e| e.id).collect();
    assert_eq!(all, vec![2, 1]);
    assert!(search_results(Vec::new(), &None, true).is_empty());
}

#[test]
fn failed_attempts_are_retried_up_to_the_bound() {
    assert_eq!(MAX_ATTEMPTS, 10);
    for attempt in 1..10 {
        assert!(matches!(get_files(attempt, Err(Error::Transport), &None, &None), FetchStep::Retry));
        assert!(matches!(get_files(attempt, Err(Error::Parse), &None, &None), FetchStep::Retry));
    }
    assert!(matches!(
        get_files(10, Err(Error::Transport), &None, &None),
        FetchStep::GiveUp(Error::RegistryUnavailable)
    ));
    assert!(matches!(
        get_files(11, Err(Error::Parse), &None, &None),
        FetchStep::GiveUp(Error::RegistryUnavailable)
    ));
}

#[test]
fn failures_that_cannot_pass_end_the_attempts_at_once() {
    assert!(matches!(
        get_files(1, Err(Error::NotFound), &None, &None),
        FetchStep::GiveUp(Error::NotFound)
    ));
    assert!(matches!(
        get_files(3, Err(Error::Write), &None, &None),
        FetchStep::GiveUp(Error::Write)
    ));
    assert!(matches!(
        get_files(1, Err(Error::RegistryUnavailable), &None, &None),
        FetchStep::GiveUp(Error::RegistryUnavailable)
    ));
    assert!(matches!(
        get_files(10, Err(Error::NotFound), &None, &None),
        FetchStep::GiveUp(Error::NotFound)
    ));
}

#[test]
fn an_answer_ends_the_attempts_with_the_fitting_files() {
    let files = vec![plain_file(1, &["1.19.2"]), plain_file(2, &["1.18"]), plain_file(3, &["1.19.2"])];
    match get_files(10, Ok(files), &Some("1.19.2".to_string()), &None) {
        FetchStep::Files(fit) => {
            let ids: Vec<i64> = fit.iter().map(|f| f.id).collect();
            assert_eq!(ids, vec![1, 3]);
        }
        other => panic!("unexpected {:?}", other),
    }
    assert!(matches!(get_files(1, Ok(Vec::new()), &None, &None), FetchStep::Files(v) if v.is_empty()));
}
