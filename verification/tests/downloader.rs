use mcget::dependency_resolver::{Received, TargetCollector, ROOT_DONE};
use mcget::downloader::{
    expected_length, file_name, registry_source, source_of, DownloadOutcome, DownloadTarget,
    Downloader, Hop, MassDownloader, Redirects, ScheduleStep, Source, UNKNOWN_LENGTH,
};
use mcget::error::Error;
use mcget::models::{FileDate, ModFile};
use mcget::objects::GameVersion;
use mcget::text::{escape_spaces, last_index_of};

#[test]
fn file_name_is_the_last_segment_without_query() {
    assert_eq!(file_name("https://host/dir/mod.jar"), Some("mod.jar".to_string()));
    assert_eq!(file_name("https://host/dir/mod.jar?token=1"), Some("mod.jar".to_string()));
    assert_eq!(file_name("https://host/dir/a?b?c"), Some("a?b".to_string()));
    assert_eq!(file_name("https://host/dir?x=1/mod.jar"), Some("mod.jar".to_string()));
    assert_eq!(file_name("https://host/dir/"), Some(String::new()));
    assert_eq!(file_name("mod.jar"), None);
    assert_eq!(file_name(""), None);
    assert_eq!(file_name("https://host/d\u{e9}j\u{e0}/\u{fc}ber.jar"), Some("\u{fc}ber.jar".to_string()));
}

#[test]
fn last_index_counts_characters() {
    assert_eq!(last_index_of("a/b/c", '/'), Some(3));
    assert_eq!(last_index_of("\u{e9}/x", '/'), Some(1));
    assert_eq!(last_index_of("abc", '/'), None);
    assert_eq!(last_index_of("", '/'), None);
}

#[test]
fn spaces_become_percent_20() {
    assert_eq!(escape_spaces("a b  c"), "a%20b%20%20c");
    assert_eq!(escape_spaces("none"), "none");
    assert_eq!(escape_spaces(" "), "%20");
    assert_eq!(escape_spaces(""), "");
    assert_eq!(escape_spaces("\u{e9} \u{e0}"), "\u{e9}%20\u{e0}");
}

#[test]
fn source_prefers_the_address() {
    let both = DownloadTarget {
        id: Some(5),
        url: Some("https://host/x/file.jar?a=b".to_string()),
        dest: "mods".to_string(),
    };
    match source_of(&both) {
        Source::Direct { url, filename } => {
            assert_eq!(url, "https://host/x/file.jar?a=b");
            assert_eq!(filename, "file.jar");
        }
        other => panic!("unexpected {:?}", other),
    }
    let package = DownloadTarget { id: Some(5), url: None, dest: "mods".to_string() };
    assert!(matches!(source_of(&package), Source::Registry(5)));
    let neither = DownloadTarget { id: None, url: None, dest: "mods".to_string() };
    assert!(matches!(source_of(&neither), Source::Unusable));
    let no_path = DownloadTarget { id: Some(1), url: Some("file.jar".to_string()), dest: String::new() };
    assert!(matches!(source_of(&no_path), Source::Unusable));
    let copy = both.clone();
    assert_eq!(copy.id, both.id);
    assert_eq!(copy.url, both.url);
    assert_eq!(copy.dest, both.dest);
}

#[test]
fn registry_source_is_the_chosen_file() {
    let file = |id: i64, secs: i64, tag: &str| ModFile {
        id,
        name: String::new(),
        filename: format!("f{}.jar", id),
        download_url: format!("https://cdn/f{}.jar", id),
        date: FileDate { secs, nanos: 0 },
        versions: vec![tag.to_string()],
        dependencies: Vec::new(),
    };
    let game = GameVersion::new("1.19.2".to_string());
    let files = vec![file(1, 10, "1.19.2"), file(2, 30, "1.19.2"), file(3, 99, "1.18")];
    match registry_source(files, &game) {
        Ok(Source::Direct { url, filename }) => {
            assert_eq!(url, "https://cdn/f2.jar");
            assert_eq!(filename, "f2.jar");
        }
        other => panic!("unexpected {:?}", other),
    }
    assert!(matches!(registry_source(vec![file(3, 99, "1.18")], &game), Err(Error::NotFound)));
}

#[test]
fn redirect_is_followed_to_the_second_address() {
    let mut hops = Redirects::start("https://first.example/get file", None);
    assert_eq!(hops.address(), "https://first.example/get%20file");
    assert_eq!(hops.answered(Some("https://second.example/the file.jar")), Hop::Follow);
    assert_eq!(hops.address(), "https://second.example/the%20file.jar");
    assert_eq!(hops.answered(None), Hop::Arrived);
    assert_eq!(hops.address(), "https://second.example/the%20file.jar");
}

#[test]
fn redirects_stop_at_the_limit() {
    let mut hops = Redirects::start("https://a/", Some(2));
    assert_eq!(hops.answered(Some("https://b/")), Hop::Follow);
    assert_eq!(hops.answered(Some("https://c/")), Hop::Follow);
    assert_eq!(hops.answered(Some("https://d/")), Hop::TooMany);
    assert_eq!(hops.address(), "https://c/");
    assert_eq!(hops.answered(None), Hop::Arrived);
    let mut none = Redirects::start("https://a/", Some(0));
    assert_eq!(none.answered(Some("https://b/")), Hop::TooMany);
    assert_eq!(none.address(), "https://a/");
}

#[test]
fn unlimited_redirects_are_all_followed() {
    let mut hops = Redirects::start("https://a/0", None);
    for i in 1..200 {
        let next = format!("https://a/{}", i);
        assert_eq!(hops.answered(Some(&next)), Hop::Follow);
        assert_eq!(hops.address(), next);
    }
}

#[test]
fn failed_target_does_not_stop_the_others() {
    let mut run = MassDownloader::new();
    run.add_file(1, "mods".to_string());
    run.add_file(2, "mods".to_string());
    run.add_target(DownloadTarget { id: Some(3), url: None, dest: "mods".to_string() });
    assert_eq!(run.targets().len(), 3);
    assert!(!run.finished());
    let first = run.record(DownloadOutcome::success("T1".to_string(), 1000));
    assert_eq!(first.total_bytes, 1000);
    assert_eq!(first.failed_count, 0);
    let second = run.record(DownloadOutcome::failure("T2".to_string(), Error::Transport));
    assert_eq!(second.total_bytes, 1000);
    assert_eq!(second.failed_count, 1);
    assert!(!run.finished());
    let third = run.record(DownloadOutcome::success("T3".to_string(), 234));
    assert_eq!(third.total_bytes, 1234);
    assert_eq!(third.failed_count, 1);
    assert!(run.finished());
    assert_eq!(run.summary(), third);
}

#[test]
fn an_empty_file_is_no_failure() {
    let mut run = MassDownloader::new();
    let sums = run.record(DownloadOutcome::success("empty".to_string(), 0));
    assert_eq!(sums.total_bytes, 0);
    assert_eq!(sums.failed_count, 0);
}

#[test]
fn totals_do_not_overflow_a_machine_word() {
    let mut run = MassDownloader::new();
    run.record(DownloadOutcome::success("a".to_string(), usize::MAX));
    let sum = run.record(DownloadOutcome::success("b".to_string(), usize::MAX));
    assert_eq!(sum.total_bytes, 2 * (usize::MAX as u128));
}

#[test]
fn outcomes_are_well_formed() {
    let ok = DownloadOutcome::success("u".to_string(), 7);
    assert!(ok.succeeded && ok.error.is_none() && ok.bytes_written == 7);
    let bad = DownloadOutcome::failure("u".to_string(), Error::Write);
    assert!(!bad.succeeded && bad.bytes_written == 0);
    assert_eq!(bad.error, Some(Error::Write));
    let empty = DownloadOutcome::success("u".to_string(), 0);
    assert!(empty.succeeded && empty.error.is_none() && empty.bytes_written == 0);
}

#[test]
fn unknown_length_is_two_hundred_mebibytes() {
    assert_eq!(UNKNOWN_LENGTH, 200 * 1024 * 1024);
    assert_eq!(expected_length(None), 209715200);
    assert_eq!(expected_length(Some(0)), 0);
    assert_eq!(expected_length(Some(42)), 42);
}

fn steps(total: usize, max_workers: usize) -> Vec<ScheduleStep> {
    let mut list = Downloader::new("parent".to_string());
    list.extend((0..total).map(|i| (format!("https://h/{}", i), format!("{}.jar", i))).collect());
    let mut schedule = list.download_all(max_workers);
    let mut seen = Vec::new();
    loop {
        let step = schedule.step();
        seen.push(step);
        match step {
            ScheduleStep::Drain => schedule.drained(),
            ScheduleStep::Done => break,
            ScheduleStep::Start(_) => {}
        }
    }
    seen
}

#[test]
fn schedule_runs_in_batches_of_max_workers() {
    assert_eq!(
        steps(5, 2),
        vec![
            ScheduleStep::Start(0),
            ScheduleStep::Start(1),
            ScheduleStep::Drain,
            ScheduleStep::Start(2),
            ScheduleStep::Start(3),
            ScheduleStep::Drain,
            ScheduleStep::Start(4),
            ScheduleStep::Drain,
            ScheduleStep::Done,
        ]
    );
    assert_eq!(
        steps(2, 4),
        vec![ScheduleStep::Start(0), ScheduleStep::Start(1), ScheduleStep::Drain, ScheduleStep::Done]
    );
    assert_eq!(steps(0, 4), vec![ScheduleStep::Done]);
}

#[test]
fn schedule_without_workers_runs_one_at_a_time() {
    let one_by_one = vec![
        ScheduleStep::Start(0),
        ScheduleStep::Drain,
        ScheduleStep::Start(1),
        ScheduleStep::Drain,
        ScheduleStep::Done,
    ];
    assert_eq!(steps(2, 0), one_by_one);
    assert_eq!(steps(2, 1), one_by_one);
}

#[test]
fn downloader_keeps_targets_in_order() {
    let mut list = Downloader::new("packs/one".to_string());
    assert_eq!(list.parent(), "packs/one");
    list.extend(vec![("https://h/a".to_string(), "a.jar".to_string())]);
    list.extend(vec![
        ("https://h/b".to_string(), "b.jar".to_string()),
        ("https://h/c".to_string(), "c.jar".to_string()),
    ]);
    let schedule = list.download_all(3);
    assert_eq!(schedule.target(0).unwrap().url, "https://h/a");
    assert_eq!(schedule.target(1).unwrap().dest, "b.jar");
    assert_eq!(schedule.target(2).unwrap().url, "https://h/c");
    assert!(schedule.target(3).is_none());
}

#[test]
fn collector_makes_each_package_a_target_once() {
    let mut collect = TargetCollector::new(2, "mods".to_string());
    assert!(!collect.complete());
    assert_eq!(collect.receive(10), Received::Added);
    assert_eq!(collect.receive(20), Received::Added);
    assert_eq!(collect.receive(10), Received::Known);
    assert_eq!(collect.receive(ROOT_DONE), Received::RootDone);
    assert!(!collect.complete());
    assert_eq!(collect.receive(30), Received::Added);
    assert_eq!(collect.receive(0), Received::RootDone);
    assert!(collect.complete());
    assert_eq!(collect.receive(0), Received::RootDone);
    let targets = collect.into_targets();
    let ids: Vec<Option<usize>> = targets.iter().map(|t| t.id).collect();
    assert_eq!(ids, vec![Some(10), Some(20), Some(30)]);
    assert!(targets.iter().all(|t| t.url.is_none() && t.dest == "mods"));
}

#[test]
fn collector_without_roots_is_complete() {
    let collect = TargetCollector::new(0, String::new());
    assert!(collect.complete());
    assert!(collect.into_targets().is_empty());
}
