use media_backup_manager::albums::{
    album_list, contains_search, details_thumbnail, known_thumbnail, matches_search, sort_by_keys,
    AlbumDetails,
};
use media_backup_manager::model::{Album, SavedSettings};
use media_backup_manager::state::ImmichApp;

fn album(id: &str, name: &str, shared: bool) -> Album {
    Album {
        id: id.to_string(),
        album_name: name.to_string(),
        asset_count: 1,
        shared,
        album_thumbnail_asset_id: None,
    }
}

fn ids(list: &[media_backup_manager::model::SelectableAlbum]) -> Vec<&str> {
    list.iter().map(|x| x.album.id.as_str()).collect()
}

#[test]
fn album_list_sorted_without_case() {
    let albums = vec![
        album("1", "zebra", false),
        album("2", "Apfel", false),
        album("3", "apfel", false),
        album("4", "Birne", true),
        album("5", "APFEL", false),
    ];
    let list = album_list(&albums, true, true);
    assert_eq!(ids(&list), vec!["2", "3", "5", "4", "1"]);
    assert!(list.iter().all(|x| !x.selected));
}

#[test]
fn album_list_keeps_wanted_kinds() {
    let albums = vec![
        album("1", "b", false),
        album("2", "a", true),
        album("3", "c", true),
    ];
    assert_eq!(ids(&album_list(&albums, true, false)), vec!["1"]);
    assert_eq!(ids(&album_list(&albums, false, true)), vec!["2", "3"]);
    assert!(album_list(&albums, false, false).is_empty());
}

#[test]
fn album_list_of_nothing() {
    assert!(album_list(&Vec::new(), true, true).is_empty());
}

#[test]
fn showing_albums_counts_them() {
    let mut app = ImmichApp::new(SavedSettings {
        server: String::new(),
        api_key: String::new(),
        api_key_dpapi: String::new(),
    });
    app.begin_album_load();
    assert_eq!(app.status, "Verbinde mit Immich ...");
    app.shared_albums = false;
    app.show_albums(&vec![album("1", "b", false), album("2", "a", true), album("3", "A", false)]);
    assert_eq!(ids(&app.albums), vec!["3", "1"]);
    assert_eq!(app.status, "Verbindung erfolgreich. 2 Album/Alben geladen.");
}

#[test]
fn thumbnail_named_by_album() {
    assert_eq!(known_thumbnail(Some("t1".to_string())), Some("t1".to_string()));
    assert_eq!(known_thumbnail(Some("  ".to_string())), None);
    assert_eq!(known_thumbnail(None), None);
}

#[test]
fn thumbnail_from_details() {
    assert_eq!(
        details_thumbnail(AlbumDetails {
            thumbnail_asset_id: Some("t".to_string()),
            first_asset_id: Some("f".to_string()),
        }),
        Some("t".to_string())
    );
    assert_eq!(
        details_thumbnail(AlbumDetails { thumbnail_asset_id: None, first_asset_id: Some("f".to_string()) }),
        Some("f".to_string())
    );
    assert_eq!(
        details_thumbnail(AlbumDetails { thumbnail_asset_id: None, first_asset_id: None }),
        None
    );
}

#[test]
fn search_finds_names_without_case() {
    assert!(matches_search("Urlaub Italien", "  "));
    assert!(matches_search("Urlaub Italien", "italien"));
    assert!(matches_search("Urlaub Italien", " URL "));
    assert!(!matches_search("Urlaub Italien", "Spanien"));
    assert!(!matches_search("Rom", "Roma"));
    assert!(matches_search("2021", "2021"));
    assert!(matches_search("", ""));
}

#[test]
fn search_text_inside_name() {
    assert!(contains_search("urlaub 2021", "2021"));
    assert!(contains_search("urlaub", ""));
    assert!(contains_search("urlaub", "urlaub"));
    assert!(!contains_search("urlaub", "Urlaub"));
    assert!(!contains_search("rom", "roma"));
}

#[test]
fn albums_sorted_by_given_keys_stably() {
    let albums = vec![album("1", "B", false), album("2", "x", false), album("3", "y", false), album("4", "A", true)];
    let keys = vec!["b".to_string(), "a".to_string(), "b".to_string(), "a".to_string()];
    let list = sort_by_keys(&albums, &keys);
    assert_eq!(ids(&list), vec!["2", "4", "1", "3"]);
    assert!(list.iter().all(|x| !x.selected));
}
