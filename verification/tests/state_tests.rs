use media_backup_manager::conflicts::{is_remote_larger, ConflictCommand, OverwriteChoice};
use media_backup_manager::events::DownloadEvent;
use media_backup_manager::model::{
    ActiveTab, Album, AlbumView, Asset, ConflictItem, DownloadJob, ExistingMode, MediaMode,
    Progress, SavedSettings, SelectableAlbum, YearBucket,
};
use media_backup_manager::naming::year_from_file_name;
use media_backup_manager::state::ImmichApp;
use media_backup_manager::years::build_year_buckets;

fn app_with(server: &str, key: &str) -> ImmichApp {
    ImmichApp::new(SavedSettings {
        server: server.to_string(),
        api_key: key.to_string(),
        api_key_dpapi: String::new(),
    })
}

fn asset(id: &str, name: &str, date: &str) -> Asset {
    Asset {
        id: id.to_string(),
        original_file_name: name.to_string(),
        device_asset_id: String::new(),
        asset_type: "IMAGE".to_string(),
        checksum: String::new(),
        local_date_time: date.to_string(),
        file_size_in_byte: 7,
    }
}

fn conflict(id: &str, local: u64, remote: Option<u64>) -> ConflictItem {
    ConflictItem {
        job: DownloadJob {
            asset: asset(id, "a.jpg", ""),
            folder_name: "F".to_string(),
            group_name: "F".to_string(),
            album_position: None,
            output_file_name: String::new(),
        },
        selected: false,
        local_size: local,
        remote_size: remote,
    }
}

fn bucket(year: &str, selected: bool) -> YearBucket {
    YearBucket { year: year.to_string(), count: 1, total_size: 1, selected }
}

#[test]
fn new_state_from_settings() {
    let a = app_with("   ", "k");
    assert_eq!(a.server, "");
    assert_eq!(a.api_key, "k");
    assert_eq!(a.status, "Bereit.");
    assert_eq!(a.parallel_downloads, 6);
    assert_eq!(a.media_mode, MediaMode::All);
    assert_eq!(a.existing_mode, ExistingMode::Ask);
    assert_eq!(a.active_tab, ActiveTab::Albums);
    assert_eq!(a.album_view, AlbumView::Covers);
    assert_eq!(a.progress, Progress { done: 0, total: 0 });
    assert!(a.dark_mode && !a.english && a.deduplicate && a.own_albums && a.shared_albums);
    assert_eq!(app_with(" http://x ", "").server, " http://x ");
}

#[test]
fn base_url_adds_scheme_and_trims() {
    assert_eq!(app_with("  photos.local:2283/// ", "").base_url(), Ok("http://photos.local:2283".to_string()));
    assert_eq!(app_with("https://p.example/", "").base_url(), Ok("https://p.example".to_string()));
    assert_eq!(app_with("http://p", "").base_url(), Ok("http://p".to_string()));
    assert_eq!(
        app_with(" / ", "").base_url(),
        Err("Bitte Immich-Serveradresse eingeben.".to_string())
    );
}

#[test]
fn api_key_is_trimmed_or_asked_for() {
    assert_eq!(app_with("", "  abc ").ensure_api_key(), Ok("abc".to_string()));
    assert_eq!(app_with("", " ").ensure_api_key(), Err("Bitte API-Key eingeben.".to_string()));
}

#[test]
fn file_names_and_years() {
    assert_eq!(ImmichApp::asset_file_name(&asset("i", "dir/IMG_1.JPG", "")), "IMG_1.JPG");
    assert_eq!(ImmichApp::asset_file_name(&asset("i", "  ", "")), "i.bin");
    let mut d = asset("i", "", "");
    d.device_asset_id = "device-7.heic".to_string();
    assert_eq!(ImmichApp::asset_file_name(&d), "device-7.heic");
    assert_eq!(ImmichApp::asset_year(&asset("i", "x.jpg", " 2021-04-01")), "2021");
    assert_eq!(ImmichApp::asset_year(&asset("i", "IMG_20190102.jpg", "")), "2019");
    assert_eq!(ImmichApp::asset_year(&asset("i", "x.jpg", "")), "Unbekannt");
    assert_eq!(year_from_file_name("a1800b2000"), "2000");
    assert_eq!(year_from_file_name("1234567"), "Unbekannt");
    assert_eq!(year_from_file_name("x21005"), "2100");
    assert_eq!(ImmichApp::sanitize_file_name("a<b>:c\"d/e\\f|g?h*i. "), "a_b__c_d_e_f_g_h_i");
    assert_eq!(ImmichApp::sanitize_file_name(" .. "), "Unbenannt");
    assert_eq!(ImmichApp::sanitize_file_name("tab\there"), "tab_here");
    assert!(ImmichApp::media_matches(&asset("i", "", ""), MediaMode::Photos));
    assert!(!ImmichApp::media_matches(&asset("i", "", ""), MediaMode::Videos));
    assert!(ImmichApp::media_matches(&asset("i", "", ""), MediaMode::All));
}

#[test]
fn year_buckets_newest_first_with_selection() {
    let years = vec!["2019".to_string(), "2021".to_string(), "2019".to_string(), "Unbekannt".to_string()];
    let sizes = vec![5, -3, 10, 1];
    let prev = vec![bucket("2019", true), bucket("2021", false)];
    let out = build_year_buckets(&years, &sizes, &prev);
    let names: Vec<&str> = out.iter().map(|b| b.year.as_str()).collect();
    assert_eq!(names, vec!["Unbekannt", "2021", "2019"]);
    assert_eq!(out[2].count, 2);
    assert_eq!(out[2].total_size, 15);
    assert!(out[2].selected);
    assert_eq!(out[1].total_size, 0);
    assert!(!out[1].selected);
    assert_eq!(out.iter().map(|b| b.count).sum::<usize>(), years.len());
    let again = build_year_buckets(&years, &sizes, &out);
    let view = |v: &[YearBucket]| -> Vec<(String, usize, i64, bool)> {
        v.iter().map(|b| (b.year.clone(), b.count, b.total_size, b.selected)).collect()
    };
    assert_eq!(view(&again), view(&out));
}

#[test]
fn selection_counts_and_marks() {
    let mut a = app_with("s", "k");
    a.albums = vec![
        SelectableAlbum { album: album("1"), selected: true },
        SelectableAlbum { album: album("2"), selected: false },
    ];
    a.year_buckets = vec![bucket("2020", true), bucket("2021", true)];
    a.all_year_buckets = vec![bucket("2020", false)];
    assert_eq!(a.selected_album_count(), 1);
    assert_eq!(a.selected_year_count(), 2);
    assert_eq!(a.selected_all_year_count(), 0);
    a.set_all_albums_selected(true);
    assert_eq!(a.selected_album_count(), 2);
    a.set_all_years_selected(false);
    assert_eq!(a.selected_year_count(), 0);
    a.set_all_all_years_selected(true);
    assert_eq!(a.selected_all_year_count(), 1);
}

fn album(id: &str) -> Album {
    Album {
        id: id.to_string(),
        album_name: format!("Album {}", id),
        asset_count: 0,
        shared: false,
        album_thumbnail_asset_id: None,
    }
}

#[test]
fn download_needs_folder_and_selection() {
    let mut a = app_with("s", "k");
    assert!(!a.can_download());
    assert_eq!(
        a.start_background_download().unwrap_err(),
        "Bitte zuerst ein Download-Verzeichnis auswählen."
    );
    a.target_dir = " /backup ".to_string();
    assert_eq!(
        a.start_background_download().unwrap_err(),
        "Bitte mindestens ein Album oder einen Jahresordner auswählen."
    );
    a.english = true;
    assert_eq!(
        a.start_background_download().unwrap_err(),
        "Select at least one album or year folder."
    );
    a.albums = vec![SelectableAlbum { album: album("1"), selected: true }];
    a.year_buckets = vec![bucket("2020", true)];
    assert!(a.can_download());
    a.parallel_downloads = 0;
    let req = a.start_background_download().unwrap();
    assert_eq!(req.base, "http://s");
    assert_eq!(req.api_key, "k");
    assert_eq!(req.target_dir, "/backup");
    assert_eq!(req.albums.len(), 1);
    assert!(req.years.is_empty());
    assert_eq!(req.parallel_downloads, 1);
    assert!(a.download_running && a.download_popup);
    assert_eq!(a.download_file, "Download wird vorbereitet ...");
    assert_eq!(a.status, "Download gestartet ...");
    assert_eq!(a.download_album_total, 1);
    assert_eq!(a.start_background_download().unwrap_err(), "Ein Download läuft bereits.");
    assert!(!a.can_download());
}

#[test]
fn download_takes_years_of_active_tab() {
    let mut a = app_with("https://s", "k");
    a.target_dir = "d".to_string();
    a.active_tab = ActiveTab::AllByYear;
    a.albums = vec![SelectableAlbum { album: album("1"), selected: true }];
    a.all_year_buckets = vec![bucket("2020", true), bucket("2019", false), bucket("2018", true)];
    let req = a.start_background_download().unwrap();
    assert!(req.albums.is_empty());
    assert_eq!(req.all_years, vec!["2020".to_string(), "2018".to_string()]);
    assert_eq!(a.download_album_total, 0);
}

#[test]
fn events_update_progress() {
    let mut a = app_with("s", "k");
    a.apply_download_event(DownloadEvent::Preparing("Lese Album: X".to_string()));
    assert_eq!(a.status, "Lese Album: X");
    assert_eq!(a.download_file, "Lese Album: X");
    a.apply_download_event(DownloadEvent::AlbumProgress {
        current: 1,
        total: 3,
        album_name: "X".to_string(),
    });
    assert_eq!(a.download_file, "Album 1 von 3: X");
    a.english = true;
    a.apply_download_event(DownloadEvent::AlbumProgress {
        current: 2,
        total: 3,
        album_name: "Y".to_string(),
    });
    assert_eq!(a.download_file, "Album 2 of 3: Y");
    assert_eq!(a.download_album_name, "Y");
    a.apply_download_event(DownloadEvent::Prepared(10));
    assert_eq!(a.download_total, 10);
    assert_eq!(a.progress, Progress { done: 0, total: 0 });
    a.apply_download_event(DownloadEvent::Progress {
        current: 4,
        total: 10,
        file_name: "f.jpg".to_string(),
        downloaded: 3,
        skipped: 1,
        failed: 0,
        active: 2,
    });
    assert_eq!(a.progress, Progress { done: 4, total: 10 });
    assert_eq!(a.download_file, "f.jpg");
    assert_eq!(a.download_active, 2);
}

#[test]
fn finished_event_opens_comparison_of_conflicts() {
    let mut a = app_with("s", "k");
    a.download_running = true;
    a.download_popup = true;
    a.conflict_index = 3;
    a.apply_download_event(DownloadEvent::Finished {
        downloaded: 5,
        skipped: 2,
        failed: 1,
        conflicts: vec![conflict("c", 1, Some(2))],
        cancelled: false,
    });
    assert!(!a.download_running && !a.download_popup);
    assert!(a.download_protocol_popup);
    assert_eq!(a.status, "Fertig. Heruntergeladen: 5 | Vorhanden: 2 | Fehler: 1");
    assert_eq!(a.download_file, "Download abgeschlossen.");
    assert_eq!(a.progress, Progress { done: 1, total: 1 });
    assert!(a.conflict_popup);
    assert_eq!(a.conflict_index, 0);
    assert_eq!(a.conflicts.len(), 1);
}

#[test]
fn cancelled_and_failed_downloads() {
    let mut a = app_with("s", "k");
    a.english = true;
    a.apply_download_event(DownloadEvent::Finished {
        downloaded: 0,
        skipped: 0,
        failed: 0,
        conflicts: vec![conflict("c", 1, Some(2))],
        cancelled: true,
    });
    assert_eq!(a.status, "Cancelled. Downloaded: 0 | Existing: 0 | Errors: 0");
    assert_eq!(a.download_file, "Download cancelled.");
    assert!(!a.conflict_popup);
    a.download_running = true;
    a.apply_download_event(DownloadEvent::Error("kaputt".to_string()));
    assert!(!a.download_running);
    assert_eq!(a.download_file, "Fehler: kaputt");
    assert_eq!(a.status, "Fehler: kaputt");
}

#[test]
fn conflicts_marked_and_chosen() {
    let mut a = app_with("s", "k");
    a.conflicts = vec![conflict("a", 10, Some(20)), conflict("b", 10, Some(5)), conflict("c", 10, None)];
    assert!(is_remote_larger(&a.conflicts[0]));
    assert!(!is_remote_larger(&a.conflicts[2]));
    a.mark_all_larger_conflicts();
    assert_eq!(a.marked_conflict_count(), 1);
    a.toggle_current_conflict();
    assert!(!a.conflicts[0].selected);
    a.set_conflict_mark(2, true);
    a.mark_conflict_if_larger(1);
    let ids: Vec<String> = a.overwrite_jobs(OverwriteChoice::Selected).iter().map(|j| j.asset.id.clone()).collect();
    assert_eq!(ids, vec!["c".to_string()]);
    assert_eq!(a.overwrite_jobs(OverwriteChoice::All).len(), 3);
    assert_eq!(a.overwrite_jobs(OverwriteChoice::Larger).len(), 1);
}

#[test]
fn conflict_navigation_and_preview() {
    let mut a = app_with("s", "k");
    a.conflicts = vec![conflict("a", 1, None), conflict("b", 1, None)];
    a.previous_conflict();
    assert_eq!(a.conflict_index, 0);
    let first = a.begin_conflict_preview().unwrap();
    assert_eq!(first.job.asset.id, "a");
    assert_eq!(a.conflict_preview_key, "a:0");
    assert!(a.begin_conflict_preview().is_none());
    a.next_conflict();
    assert_eq!(a.conflict_index, 1);
    assert_eq!(a.conflict_preview_key, "");
    a.next_conflict();
    assert_eq!(a.conflict_index, 1);
    assert_eq!(a.current_conflict_index(), 1);
    assert_eq!(a.begin_conflict_preview().unwrap().job.asset.id, "b");
    assert_eq!(a.conflict_preview_key, "b:1");
}

#[test]
fn overwrite_of_nothing_larger_closes_comparison() {
    let mut a = app_with("s", "k");
    a.conflict_popup = true;
    a.conflicts = vec![conflict("a", 10, Some(5))];
    assert!(a.resolve_conflicts(false, Some(OverwriteChoice::Larger)).is_none());
    assert!(!a.conflict_popup);
    assert_eq!(a.status, "Keine sicher ermittelte Immich-Datei ist größer als die vorhandene Datei.");
}

#[test]
fn overwrite_starts_with_chosen_files() {
    let mut a = app_with("s", "k");
    a.conflict_popup = true;
    a.target_dir = "/t".to_string();
    a.conflicts = vec![conflict("a", 10, Some(50)), conflict("b", 10, Some(5))];
    let req = a.resolve_conflicts(false, Some(OverwriteChoice::All)).unwrap();
    assert_eq!(req.jobs.len(), 2);
    assert_eq!(req.base, "http://s");
    assert_eq!(req.target_dir, "/t");
    assert!(a.download_running);
    assert!(!a.conflict_popup);
    assert_eq!(a.download_total, 2);
    assert_eq!(a.download_file, "Vorhandene Dateien werden überschrieben ...");
    let again = a.resolve_conflicts(false, Some(OverwriteChoice::All));
    assert!(again.is_none());
    assert_eq!(a.status, "Fehler: Ein Download läuft bereits.");
}

#[test]
fn closing_comparison_without_choice() {
    let mut a = app_with("s", "k");
    a.conflict_popup = true;
    assert!(a.resolve_conflicts(true, None).is_none());
    assert!(!a.conflict_popup);
    let mut b = app_with("s", "k");
    assert_eq!(
        b.start_conflict_overwrite(Vec::new()).unwrap_err(),
        "Keine Dateien zum Überschreiben ausgewählt."
    );
}

#[test]
fn conflict_keys_and_buttons() {
    let mut a = app_with("s", "k");
    a.conflicts = vec![conflict("a", 10, Some(20)), conflict("b", 10, Some(5)), conflict("c", 10, None)];
    a.apply_conflict_command(ConflictCommand::Previous);
    assert_eq!(a.conflict_index, 0);
    a.apply_conflict_command(ConflictCommand::Toggle);
    assert!(a.conflicts[0].selected);
    a.apply_conflict_command(ConflictCommand::Next);
    a.apply_conflict_command(ConflictCommand::KeepRemote);
    assert!(a.conflicts[1].selected);
    a.apply_conflict_command(ConflictCommand::LargerHere);
    assert!(!a.conflicts[1].selected);
    a.apply_conflict_command(ConflictCommand::Next);
    a.apply_conflict_command(ConflictCommand::Next);
    assert_eq!(a.conflict_index, 2);
    a.apply_conflict_command(ConflictCommand::KeepRemote);
    a.apply_conflict_command(ConflictCommand::KeepLocal);
    assert!(!a.conflicts[2].selected);
    a.apply_conflict_command(ConflictCommand::LargerAll);
    let marks: Vec<bool> = a.conflicts.iter().map(|c| c.selected).collect();
    assert_eq!(marks, vec![true, false, false]);
    assert_eq!(a.conflicts.len(), 3);
    assert_eq!(a.conflict_index, 2);
}

#[test]
fn base_address_maps_to_itself() {
    let first = app_with(" photos.local:2283// ", "").base_url().unwrap();
    assert_eq!(first, "http://photos.local:2283");
    assert_eq!(app_with(&first, "").base_url(), Ok(first.clone()));
    let tls = app_with("https://p.example/", "").base_url().unwrap();
    assert_eq!(app_with(&tls, "").base_url(), Ok(tls.clone()));
}
