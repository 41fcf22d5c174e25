use media_backup_manager::model::{Asset, DownloadJob};
use media_backup_manager::state::ImmichApp;

fn job(asset_id: &str, folder_name: &str) -> DownloadJob {
    DownloadJob {
        asset: Asset {
            id: asset_id.to_string(),
            original_file_name: "photo.jpg".to_string(),
            device_asset_id: String::new(),
            asset_type: "IMAGE".to_string(),
            checksum: "same-checksum".to_string(),
            local_date_time: "2026-01-01T00:00:00Z".to_string(),
            file_size_in_byte: 100,
        },
        folder_name: folder_name.to_string(),
        group_name: folder_name.to_string(),
        album_position: None,
        output_file_name: String::new(),
    }
}

#[test]
fn keeps_duplicate_asset_in_each_album_folder() {
    let jobs = vec![job("asset-1", "Album A"), job("asset-1", "Album B")];

    assert_eq!(ImmichApp::deduplicate_jobs(jobs).len(), 2);
}

#[test]
fn removes_duplicate_asset_within_one_album_folder() {
    let jobs = vec![job("asset-1", "Album A"), job("asset-1", "Album A")];

    assert_eq!(ImmichApp::deduplicate_jobs(jobs).len(), 1);
}

#[test]
fn keeps_distinct_assets_with_same_checksum() {
    let mut first = job("asset-1", "Album A");
    first.asset.checksum = "same-checksum".to_string();
    let mut second = job("asset-2", "Album A");
    second.asset.checksum = "same-checksum".to_string();

    assert_eq!(ImmichApp::deduplicate_jobs(vec![first, second]).len(), 2);
}

#[test]
fn keeps_distinct_assets_with_same_original_filename() {
    let mut first = job("asset-1", "Album A");
    first.asset.checksum = "checksum-1".to_string();
    let mut second = job("asset-2", "Album A");
    second.asset.checksum = "checksum-2".to_string();

    let jobs = ImmichApp::deduplicate_queue_jobs(vec![first, second]);

    assert_eq!(jobs.len(), 2);
    assert_ne!(jobs[0].output_file_name, jobs[1].output_file_name);
}

#[test]
fn dedup_key_ignores_case_of_folder() {
    let jobs = vec![job("asset-1", "Album A"), job("asset-1", "album a")];
    assert_eq!(ImmichApp::deduplicate_jobs(jobs).len(), 1);
}

#[test]
fn dedup_keeps_the_larger_copy_in_first_place() {
    let mut small = job("asset-1", "Album A");
    small.asset.file_size_in_byte = 10;
    let other = job("asset-2", "Album A");
    let mut large = job("asset-1", "Album A");
    large.asset.file_size_in_byte = 500;
    large.group_name = "second".to_string();
    let out = ImmichApp::deduplicate_jobs(vec![small, other, large]);
    assert_eq!(out.len(), 2);
    assert_eq!(out[0].asset.id, "asset-1");
    assert_eq!(out[0].asset.file_size_in_byte, 500);
    assert_eq!(out[0].group_name, "second");
    assert_eq!(out[1].asset.id, "asset-2");
}

#[test]
fn dedup_keeps_the_first_of_equal_sizes() {
    let first = job("asset-1", "Album A");
    let mut again = job("asset-1", "Album A");
    again.group_name = "later".to_string();
    let out = ImmichApp::deduplicate_jobs(vec![first, again]);
    assert_eq!(out.len(), 1);
    assert_eq!(out[0].group_name, "Album A");
}

#[test]
fn queue_names_clashing_files_with_asset_id() {
    let out = ImmichApp::deduplicate_queue_jobs(vec![
        job("asset-1", "Album A"),
        job("asset-2", "Album A"),
        job("asset-3", "Album B"),
    ]);
    assert_eq!(out.len(), 3);
    assert_eq!(out[0].output_file_name, "photo.jpg");
    assert_eq!(out[1].output_file_name, "photo_asset-2.jpg");
    assert_eq!(out[2].output_file_name, "photo.jpg");
}

#[test]
fn queue_names_third_clash_with_counter() {
    let out = ImmichApp::assign_output_names(
        vec![job("x", "F"), job("x", "F"), job("x", "F"), job("x", "G")],
        vec![
            "photo.jpg".to_string(),
            "photo.jpg".to_string(),
            "photo.jpg".to_string(),
            "photo.jpg".to_string(),
        ],
    );
    assert_eq!(out.len(), 4);
    assert_eq!(out[0].output_file_name, "photo.jpg");
    assert_eq!(out[1].output_file_name, "photo_x.jpg");
    assert_eq!(out[2].output_file_name, "photo_x-2.jpg");
    assert_eq!(out[3].output_file_name, "photo.jpg");
    assert_eq!(out[2].folder_name, "F");
}

#[test]
fn queue_name_without_extension_gets_suffix_at_end() {
    let mut a = job("a1", "F");
    a.asset.original_file_name = "README".to_string();
    let mut b = job("b2", "F");
    b.asset.original_file_name = "readme".to_string();
    let out = ImmichApp::deduplicate_queue_jobs(vec![a, b]);
    assert_eq!(out[0].output_file_name, "README");
    assert_eq!(out[1].output_file_name, "readme_b2");
}

#[test]
fn queue_of_nothing_is_empty() {
    assert_eq!(ImmichApp::deduplicate_queue_jobs(Vec::new()).len(), 0);
}

#[test]
fn deduplicates_by_given_folder_keys() {
    let mut small = job("asset-1", "Urlaub");
    small.asset.file_size_in_byte = 5;
    let mut large = job("asset-1", "URLAUB");
    large.asset.file_size_in_byte = 7;
    let other = job("asset-2", "Urlaub");
    let jobs = vec![small.clone(), large.clone(), other.clone()];
    let keys = vec!["urlaub".to_string(), "urlaub".to_string(), "urlaub".to_string()];
    let out = ImmichApp::deduplicate_jobs_by_keys(jobs.clone(), &keys);
    assert_eq!(out.len(), 2);
    assert_eq!(out[0].folder_name, "URLAUB");
    assert_eq!(out[0].asset.file_size_in_byte, 7);
    assert_eq!(out[1].asset.id, "asset-2");
    let apart = vec!["urlaub".to_string(), "URLAUB".to_string(), "urlaub".to_string()];
    assert_eq!(ImmichApp::deduplicate_jobs_by_keys(jobs, &apart).len(), 3);
}
