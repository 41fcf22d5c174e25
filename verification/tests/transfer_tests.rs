use media_backup_manager::events::DownloadEvent;
use media_backup_manager::model::{Album, Asset, DownloadJob, ExistingMode, MediaMode};
use media_backup_manager::transfer::{
    add_album_jobs, add_year_jobs, after_attempt, album_failure_message, album_started,
    conflict_file_name, content_range_total, existing_file_outcome, finalize_jobs,
    group_announcement, group_jobs, head_size, job_action, job_file_name, range_size,
    target_dir_message, worker_count, AlbumFailure, AttemptResult, JobAction, JobOutcome,
    JobTally, RetryStep, YearSource,
};

fn asset(id: &str, kind: &str, date: &str) -> Asset {
    Asset {
        id: id.to_string(),
        original_file_name: format!("{}.jpg", id),
        device_asset_id: String::new(),
        asset_type: kind.to_string(),
        checksum: String::new(),
        local_date_time: date.to_string(),
        file_size_in_byte: 1,
    }
}

fn album(name: &str) -> Album {
    Album {
        id: "album-id".to_string(),
        album_name: name.to_string(),
        asset_count: 0,
        shared: false,
        album_thumbnail_asset_id: None,
    }
}

fn plain_job(id: &str, group: &str, position: Option<(usize, usize)>) -> DownloadJob {
    DownloadJob {
        asset: asset(id, "IMAGE", "2020-01-01"),
        folder_name: group.to_string(),
        group_name: group.to_string(),
        album_position: position,
        output_file_name: String::new(),
    }
}

#[test]
fn album_jobs_take_matching_assets() {
    let mut jobs = vec![plain_job("first", "x", None)];
    add_album_jobs(
        &mut jobs,
        &album("Ferien: 2020?"),
        1,
        3,
        vec![
            asset("a", "IMAGE", ""),
            asset("b", "VIDEO", ""),
            asset("c", "IMAGE", ""),
        ],
        MediaMode::Photos,
    );
    assert_eq!(jobs.len(), 3);
    assert_eq!(jobs[0].asset.id, "first");
    assert_eq!(jobs[1].asset.id, "a");
    assert_eq!(jobs[2].asset.id, "c");
    assert_eq!(jobs[1].folder_name, "Ferien_ 2020_");
    assert_eq!(jobs[1].group_name, "Ferien: 2020?");
    assert_eq!(jobs[1].album_position, Some((2, 3)));
    assert_eq!(jobs[1].output_file_name, "");
}

#[test]
fn year_jobs_follow_selected_years() {
    let assets = vec![
        asset("a", "IMAGE", "2020-01-01"),
        asset("b", "IMAGE", "2019-01-01"),
        asset("c", "VIDEO", "2020-02-01"),
        asset("d", "IMAGE", "2020-03-01"),
    ];
    let mut jobs = Vec::new();
    add_year_jobs(
        &mut jobs,
        &vec!["2019".to_string(), "2020".to_string(), "1999".to_string()],
        &assets,
        MediaMode::All,
        YearSource::NoAlbum,
    );
    let ids: Vec<&str> = jobs.iter().map(|j| j.asset.id.as_str()).collect();
    assert_eq!(ids, vec!["b", "a", "c", "d"]);
    assert_eq!(jobs[0].folder_name, "Ohne Album\\2019");
    assert_eq!(jobs[0].group_name, "Ohne Album 2019");
    assert_eq!(jobs[1].folder_name, "Ohne Album\\2020");
    assert_eq!(jobs[1].album_position, None);
    let mut all = Vec::new();
    add_year_jobs(
        &mut all,
        &vec!["2020".to_string()],
        &assets,
        MediaMode::Videos,
        YearSource::AllAssets,
    );
    assert_eq!(all.len(), 1);
    assert_eq!(all[0].asset.id, "c");
    assert_eq!(all[0].folder_name, "Alle Fotos nach Jahr\\2020");
    assert_eq!(all[0].group_name, "Alle Fotos 2020");
}

#[test]
fn empty_queue_is_refused() {
    assert_eq!(
        finalize_jobs(Vec::new(), true).unwrap_err(),
        "Die Auswahl enthält keine passenden Dateien."
    );
}

#[test]
fn queue_is_deduplicated_and_named() {
    let jobs = vec![
        plain_job("a", "F", None),
        plain_job("a", "F", None),
        plain_job("b", "F", None),
    ];
    let out = finalize_jobs(jobs.clone(), false).unwrap();
    assert_eq!(out.len(), 2);
    assert_eq!(out[0].output_file_name, "a.jpg");
    assert_eq!(out[1].output_file_name, "b.jpg");
    let out2 = finalize_jobs(jobs, true).unwrap();
    assert_eq!(out2.len(), 2);
    for (a, b) in out.iter().zip(out2.iter()) {
        assert_eq!(a.asset.id, b.asset.id);
        assert_eq!(a.output_file_name, b.output_file_name);
    }
}

#[test]
fn groups_in_order_of_first_appearance() {
    let jobs = vec![
        plain_job("1", "B", None),
        plain_job("2", "A", None),
        plain_job("3", "B", None),
        plain_job("4", "C", None),
        plain_job("5", "A", None),
    ];
    let groups = group_jobs(&jobs);
    let names: Vec<&str> = groups.iter().map(|g| g.name.as_str()).collect();
    assert_eq!(names, vec!["B", "A", "C"]);
    let b: Vec<&str> = groups[0].jobs.iter().map(|j| j.asset.id.as_str()).collect();
    assert_eq!(b, vec!["1", "3"]);
    let a: Vec<&str> = groups[1].jobs.iter().map(|j| j.asset.id.as_str()).collect();
    assert_eq!(a, vec!["2", "5"]);
    let total: usize = groups.iter().map(|g| g.jobs.len()).sum();
    assert_eq!(total, jobs.len());
}

#[test]
fn group_announcement_by_kind() {
    let groups = group_jobs(&vec![
        plain_job("1", "Urlaub", Some((2, 5))),
        plain_job("2", "Ohne Album 2020", None),
    ]);
    match group_announcement(&groups[0]) {
        DownloadEvent::AlbumProgress { current, total, album_name } => {
            assert_eq!((current, total), (2, 5));
            assert_eq!(album_name, "Urlaub");
        }
        _ => panic!("album expected"),
    }
    match group_announcement(&groups[1]) {
        DownloadEvent::Preparing(text) => assert_eq!(text, "Jahresordner: Ohne Album 2020"),
        _ => panic!("step expected"),
    }
}

#[test]
fn workers_between_one_and_jobs() {
    assert_eq!(worker_count(6, 100), 6);
    assert_eq!(worker_count(6, 2), 2);
    assert_eq!(worker_count(6, 0), 1);
    assert_eq!(worker_count(0, 5), 1);
    assert_eq!(worker_count(8, 8), 8);
}

#[test]
fn file_name_of_job() {
    let mut j = plain_job("pic", "F", None);
    assert_eq!(job_file_name(&j), "pic.jpg");
    j.output_file_name = "pic_pic.jpg".to_string();
    assert_eq!(job_file_name(&j), "pic_pic.jpg");
    let mut k = plain_job("x", "F", None);
    k.asset.original_file_name = "a:b.jpg".to_string();
    assert_eq!(conflict_file_name(&k), "a_b.jpg");
    k.output_file_name = "given:name".to_string();
    assert_eq!(conflict_file_name(&k), "given:name");
}

#[test]
fn action_for_existing_files() {
    assert_eq!(job_action(true, ExistingMode::Ask, false), JobAction::CompareSizes);
    assert_eq!(job_action(true, ExistingMode::Ask, true), JobAction::CompareSizes);
    assert_eq!(job_action(true, ExistingMode::Overwrite, false), JobAction::Download);
    assert_eq!(job_action(false, ExistingMode::Ask, false), JobAction::Download);
    assert_eq!(job_action(false, ExistingMode::Ask, true), JobAction::Leave);
}

#[test]
fn equal_sizes_are_present_others_conflict() {
    assert!(matches!(
        existing_file_outcome(plain_job("a", "F", None), 10, Some(10)),
        JobOutcome::Present
    ));
    match existing_file_outcome(plain_job("a", "F", None), 10, Some(12)) {
        JobOutcome::Conflict(c) => {
            assert_eq!(c.local_size, 10);
            assert_eq!(c.remote_size, Some(12));
            assert!(!c.selected);
            assert_eq!(c.job.asset.id, "a");
        }
        _ => panic!("conflict expected"),
    }
    assert!(matches!(
        existing_file_outcome(plain_job("a", "F", None), 10, None),
        JobOutcome::Conflict(_)
    ));
}

#[test]
fn tally_counts_each_outcome() {
    let mut t = JobTally::new();
    t.start_job();
    t.start_job();
    let e = t.record("a.jpg".to_string(), JobOutcome::Downloaded, 5);
    match e {
        DownloadEvent::Progress { current, total, file_name, downloaded, skipped, failed, active } => {
            assert_eq!((current, total, downloaded, skipped, failed, active), (1, 5, 1, 0, 0, 1));
            assert_eq!(file_name, "a.jpg");
        }
        _ => panic!("progress expected"),
    }
    t.record("b.jpg".to_string(), JobOutcome::DownloadFailed("timeout".to_string()), 5);
    t.start_job();
    t.record("c.jpg".to_string(), JobOutcome::Present, 5);
    t.start_job();
    let conflict = match existing_file_outcome(plain_job("d", "F", None), 1, Some(2)) {
        JobOutcome::Conflict(c) => c,
        _ => panic!("conflict expected"),
    };
    t.record("d.jpg".to_string(), JobOutcome::Conflict(conflict), 5);
    t.start_job();
    t.record("e.jpg".to_string(), JobOutcome::FolderFailed("denied".to_string()), 5);
    t.start_job();
    t.record("f.jpg".to_string(), JobOutcome::Left, 5);
    assert_eq!(t.downloaded, 1);
    assert_eq!(t.skipped, 2);
    assert_eq!(t.failed, 2);
    assert_eq!(t.completed, 6);
    assert_eq!(t.left, 1);
    assert_eq!(t.downloaded + t.skipped + t.failed + t.left, t.completed);
    assert_eq!(t.active, 0);
    assert_eq!(t.conflicts.len(), 1);
    assert_eq!(t.errors, vec!["b.jpg : timeout".to_string(), "e.jpg : denied".to_string()]);
}

#[test]
fn head_answer_size() {
    assert_eq!(head_size(true, Some(42)), Some(42));
    assert_eq!(head_size(true, Some(0)), None);
    assert_eq!(head_size(false, Some(42)), None);
    assert_eq!(head_size(true, None), None);
}

#[test]
fn content_range_totals() {
    assert_eq!(content_range_total("bytes 0-0/1234"), Some(1234));
    assert_eq!(content_range_total("bytes 0-0/*"), None);
    assert_eq!(content_range_total("bytes 0-0/0"), None);
    assert_eq!(content_range_total("bytes 0-0/"), None);
    assert_eq!(content_range_total("77"), Some(77));
    assert_eq!(content_range_total("a/b/+9"), Some(9));
    assert_eq!(content_range_total("bytes 0-0/-9"), None);
    assert_eq!(content_range_total("bytes 0-0/18446744073709551616"), None);
    assert_eq!(content_range_total("bytes 0-0/18446744073709551615"), Some(u64::MAX));
    assert_eq!(content_range_total("bytes 0-0/12a"), None);
}

#[test]
fn range_answer_size() {
    assert_eq!(range_size(false, Some("bytes 0-0/5".to_string()), Some(9)), None);
    assert_eq!(range_size(true, Some("bytes 0-0/5".to_string()), Some(9)), Some(5));
    assert_eq!(range_size(true, Some("bytes 0-0/*".to_string()), Some(9)), Some(9));
    assert_eq!(range_size(true, None, Some(1)), None);
    assert_eq!(range_size(true, None, Some(2)), Some(2));
    assert_eq!(range_size(true, None, None), None);
}

#[test]
fn retries_twice_then_gives_up() {
    assert!(matches!(after_attempt(0, AttemptResult::Failed("x".to_string())), RetryStep::Retry(250)));
    assert!(matches!(after_attempt(1, AttemptResult::Failed("x".to_string())), RetryStep::Retry(500)));
    match after_attempt(2, AttemptResult::Failed("last".to_string())) {
        RetryStep::GiveUp(e) => assert_eq!(e, "last"),
        _ => panic!("give up expected"),
    }
    assert!(matches!(after_attempt(1, AttemptResult::Saved), RetryStep::Finish(Ok(()))));
    match after_attempt(0, AttemptResult::CreateFailed("denied".to_string())) {
        RetryStep::Finish(Err(e)) => assert_eq!(e, "denied"),
        _ => panic!("finish expected"),
    }
}

#[test]
fn album_messages() {
    assert_eq!(
        album_failure_message(AlbumFailure::Request, "Urlaub", "404"),
        "Album 'Urlaub' konnte nicht geladen werden: 404"
    );
    assert_eq!(
        album_failure_message(AlbumFailure::Data, "Urlaub", "eof"),
        "Album 'Urlaub' lieferte ungültige Daten: eof"
    );
    assert_eq!(
        album_failure_message(AlbumFailure::Items, "Urlaub", "type"),
        "Album 'Urlaub' konnte nicht ausgewertet werden: type"
    );
    assert_eq!(
        target_dir_message("denied"),
        "Zielordner konnte nicht erstellt werden: denied"
    );
    let (first, second) = album_started(&album("Urlaub"), 0, 2);
    match first {
        DownloadEvent::AlbumProgress { current, total, album_name } => {
            assert_eq!((current, total), (1, 2));
            assert_eq!(album_name, "Urlaub");
        }
        _ => panic!("album expected"),
    }
    match second {
        DownloadEvent::Preparing(t) => assert_eq!(t, "Lese Album: Urlaub"),
        _ => panic!("step expected"),
    }
}

#[test]
fn finished_event_reports_tally() {
    let make = || {
        let mut t = JobTally::new();
        t.start_job();
        t.record("a.jpg".to_string(), JobOutcome::Downloaded, 3);
        t.start_job();
        t.record("b.jpg".to_string(), JobOutcome::Present, 3);
        t.start_job();
        t.record("c.jpg".to_string(), JobOutcome::DownloadFailed("x".to_string()), 3);
        t
    };
    match make().finish(false, true) {
        DownloadEvent::Finished { downloaded, skipped, failed, conflicts, cancelled } => {
            assert_eq!((downloaded, skipped, failed, conflicts.len(), cancelled), (1, 1, 1, 0, true));
        }
        _ => panic!("finished expected"),
    }
    match make().finish(true, false) {
        DownloadEvent::Finished { downloaded, skipped, failed, conflicts, cancelled } => {
            assert_eq!((downloaded, skipped, failed, conflicts.len(), cancelled), (1, 0, 1, 0, false));
        }
        _ => panic!("finished expected"),
    }
}
