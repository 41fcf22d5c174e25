//! The records the backup manager works on, as the Immich API describes
//! them, and the choices a user makes about them.

use vstd::prelude::*;

verus! {

/// An Immich album.
#[derive(Debug, Clone)]
pub struct Album {
    pub id: String,
    pub album_name: String,
    pub asset_count: usize,
    pub shared: bool,
    pub album_thumbnail_asset_id: Option<String>,
}

/// An Immich asset (one photo or video).
#[derive(Debug, Clone)]
pub struct Asset {
    pub id: String,
    pub original_file_name: String,
    pub device_asset_id: String,
    pub asset_type: String,
    pub checksum: String,
    pub local_date_time: String,
    pub file_size_in_byte: i64,
}

/// An album as the album list shows it: with its selection mark.
#[derive(Debug, Clone)]
pub struct SelectableAlbum {
    pub album: Album,
    pub selected: bool,
}

/// A folder of one year: how many assets it holds and their total size.
#[derive(Debug, Clone)]
pub struct YearBucket {
    pub year: String,
    pub count: usize,
    pub total_size: i64,
    pub selected: bool,
}

/// One file to download: the asset, the folder below the destination, the
/// group it is announced under and, for albums, its position in the album
/// list.
#[derive(Debug, Clone)]
pub struct DownloadJob {
    pub asset: Asset,
    pub folder_name: String,
    pub group_name: String,
    pub album_position: Option<(usize, usize)>,
    pub output_file_name: String,
}

/// A file that exists already at its destination, with the local size and
/// the size of the Immich original (where it could be found out).
#[derive(Debug, Clone)]
pub struct ConflictItem {
    pub job: DownloadJob,
    pub selected: bool,
    pub local_size: u64,
    pub remote_size: Option<u64>,
}

/// Which kinds of media a download takes.
#[derive(PartialEq, Eq, Structural, Clone, Copy, Debug)]
pub enum MediaMode {
    All,
    Photos,
    Videos,
}

/// What happens to a file that exists already at its destination.
#[derive(PartialEq, Eq, Structural, Clone, Copy, Debug)]
pub enum ExistingMode {
    Ask,
    Overwrite,
}

/// The tab the main window shows.
#[derive(PartialEq, Eq, Structural, Clone, Copy, Debug)]
pub enum ActiveTab {
    Albums,
    NoAlbum,
    AllByYear,
}

/// How the album tab lays out the albums.
#[derive(PartialEq, Eq, Structural, Clone, Copy, Debug)]
pub enum AlbumView {
    Covers,
    List,
}

/// A fraction of work done, `done / total`; no work (`total == 0`) counts
/// as nothing done.
#[derive(PartialEq, Eq, Structural, Clone, Copy, Debug)]
pub struct Progress {
    pub done: usize,
    pub total: usize,
}

/// The stored settings: server address and API key, the key either in
/// plain text (older versions) or protected and base64-encoded.
#[derive(Debug, Clone)]
pub struct SavedSettings {
    pub server: String,
    pub api_key: String,
    pub api_key_dpapi: String,
}

impl Album {
    /// A copy of the album.
    pub fn duplicate(&self) -> (out: Album)
        ensures
            out == *self,
    {
        Album {
            id: self.id.clone(),
            album_name: self.album_name.clone(),
            asset_count: self.asset_count,
            shared: self.shared,
            album_thumbnail_asset_id: match &self.album_thumbnail_asset_id {
                Some(t) => Some(t.clone()),
                None => None,
            },
        }
    }
}

impl Asset {
    /// A copy of the asset.
    pub fn duplicate(&self) -> (out: Asset)
        ensures
            out == *self,
    {
        Asset {
            id: self.id.clone(),
            original_file_name: self.original_file_name.clone(),
            device_asset_id: self.device_asset_id.clone(),
            asset_type: self.asset_type.clone(),
            checksum: self.checksum.clone(),
            local_date_time: self.local_date_time.clone(),
            file_size_in_byte: self.file_size_in_byte,
        }
    }
}

impl DownloadJob {
    /// A copy of the job.
    pub fn duplicate(&self) -> (out: DownloadJob)
        ensures
            out == *self,
    {
        DownloadJob {
            asset: self.asset.duplicate(),
            folder_name: self.folder_name.clone(),
            group_name: self.group_name.clone(),
            album_position: self.album_position,
            output_file_name: self.output_file_name.clone(),
        }
    }
}

impl ConflictItem {
    /// A copy of the item.
    pub fn duplicate(&self) -> (out: ConflictItem)
        ensures
            out == *self,
    {
        ConflictItem {
            job: self.job.duplicate(),
            selected: self.selected,
            local_size: self.local_size,
            remote_size: self.remote_size,
        }
    }
}

impl YearBucket {
    /// A copy of the bucket.
    pub fn duplicate(&self) -> (out: YearBucket)
        ensures
            out == *self,
    {
        YearBucket {
            year: self.year.clone(),
            count: self.count,
            total_size: self.total_size,
            selected: self.selected,
        }
    }
}

} // verus!
