//! The state of the backup manager that its rules read and change: the
//! connection, the loaded albums and assets, the choices of the user, the
//! progress of a download and the list of conflicting files.

use vstd::prelude::*;
use crate::model::{
    AlbumView, ActiveTab, Asset, ConflictItem, ExistingMode, MediaMode, Progress, SavedSettings,
    SelectableAlbum, YearBucket,
};
use crate::text::{all_ws, is_blank, owned};

verus! {

/// The state of the application, without anything drawn on screen.
pub struct ImmichApp {
    pub server: String,
    pub api_key: String,
    pub show_key: bool,
    pub own_albums: bool,
    pub shared_albums: bool,
    pub deduplicate: bool,
    pub album_search: String,
    pub album_view: AlbumView,
    pub year_search: String,
    pub albums: Vec<SelectableAlbum>,
    pub no_album_assets: Vec<Asset>,
    pub year_buckets: Vec<YearBucket>,
    pub all_assets: Vec<Asset>,
    pub all_year_buckets: Vec<YearBucket>,
    pub media_mode: MediaMode,
    pub existing_mode: ExistingMode,
    pub active_tab: ActiveTab,
    pub target_dir: String,
    pub status: String,
    pub progress: Progress,
    pub parallel_downloads: usize,
    pub download_running: bool,
    pub download_popup: bool,
    pub download_protocol_popup: bool,
    pub protocol_selected_albums: usize,
    pub protocol_selected_years: usize,
    pub download_current: usize,
    pub download_total: usize,
    pub download_file: String,
    pub download_downloaded: usize,
    pub download_skipped: usize,
    pub download_failed: usize,
    pub download_active: usize,
    pub download_album_current: usize,
    pub download_album_total: usize,
    pub download_album_name: String,
    pub conflict_popup: bool,
    pub conflicts: Vec<ConflictItem>,
    pub conflict_index: usize,
    pub conflict_preview_key: String,
    pub conflict_local_dims: Option<(u32, u32)>,
    pub conflict_remote_dims: Option<(u32, u32)>,
    pub info_popup: bool,
    pub settings_popup: bool,
    pub english: bool,
    pub dark_mode: bool,
}

impl ImmichApp {
    /// The state at start-up, given the settings that were loaded: the
    /// stored server (none if it is blank) and key, everything else at its
    /// initial value.
    pub fn new(saved: SavedSettings) -> (app: ImmichApp)
        ensures
            app.server@ == (if all_ws(saved.server@) {
                Seq::<char>::empty()
            } else {
                saved.server@
            }),
            app.api_key == saved.api_key,
            !app.show_key,
            app.own_albums,
            app.shared_albums,
            app.deduplicate,
            app.album_search@.len() == 0,
            app.album_view == AlbumView::Covers,
            app.year_search@.len() == 0,
            app.albums@.len() == 0,
            app.no_album_assets@.len() == 0,
            app.year_buckets@.len() == 0,
            app.all_assets@.len() == 0,
            app.all_year_buckets@.len() == 0,
            app.media_mode == MediaMode::All,
            app.existing_mode == ExistingMode::Ask,
            app.active_tab == ActiveTab::Albums,
            app.target_dir@.len() == 0,
            app.status@ == "Bereit."@,
            app.progress == (Progress { done: 0, total: 0 }),
            app.parallel_downloads == 6,
            !app.download_running,
            !app.download_popup,
            !app.download_protocol_popup,
            app.protocol_selected_albums == 0,
            app.protocol_selected_years == 0,
            app.download_current == 0,
            app.download_total == 0,
            app.download_file@.len() == 0,
            app.download_downloaded == 0,
            app.download_skipped == 0,
            app.download_failed == 0,
            app.download_active == 0,
            app.download_album_current == 0,
            app.download_album_total == 0,
            app.download_album_name@.len() == 0,
            !app.conflict_popup,
            app.conflicts@.len() == 0,
            app.conflict_index == 0,
            app.conflict_preview_key@.len() == 0,
            app.conflict_local_dims is None,
            app.conflict_remote_dims is None,
            !app.info_popup,
            !app.settings_popup,
            !app.english,
            app.dark_mode,
    {
        let server = if is_blank(saved.server.as_str()) {
            String::new()
        } else {
            saved.server
        };
        ImmichApp {
            server,
            api_key: saved.api_key,
            show_key: false,
            own_albums: true,
            shared_albums: true,
            deduplicate: true,
            album_search: String::new(),
            album_view: AlbumView::Covers,
            year_search: String::new(),
            albums: Vec::new(),
            no_album_assets: Vec::new(),
            year_buckets: Vec::new(),
            all_assets: Vec::new(),
            all_year_buckets: Vec::new(),
            media_mode: MediaMode::All,
            existing_mode: ExistingMode::Ask,
            active_tab: ActiveTab::Albums,
            target_dir: String::new(),
            status: owned("Bereit."),
            progress: Progress { done: 0, total: 0 },
            parallel_downloads: 6,
            download_running: false,
            download_popup: false,
            download_protocol_popup: false,
            protocol_selected_albums: 0,
            protocol_selected_years: 0,
            download_current: 0,
            download_total: 0,
            download_file: String::new(),
            download_downloaded: 0,
            download_skipped: 0,
            download_failed: 0,
            download_active: 0,
            download_album_current: 0,
            download_album_total: 0,
            download_album_name: String::new(),
            conflict_popup: false,
            conflicts: Vec::new(),
            conflict_index: 0,
            conflict_preview_key: String::new(),
            conflict_local_dims: None,
            conflict_remote_dims: None,
            info_popup: false,
            settings_popup: false,
            english: false,
            dark_mode: true,
        }
    }
}

} // verus!
