//! Core logic of the media backup manager for Immich: naming of backup
//! files, grouping of media by year, de-duplication of the download queue,
//! the download-progress state machine and the storage format of the API key.

pub mod text;
pub mod model;
pub mod state;
pub mod naming;
pub mod dedup;
pub mod years;
pub mod connection;
pub mod selection;
pub mod events;
pub mod conflicts;
pub mod apikey;
pub mod paging;
pub mod transfer;
pub mod albums;
pub mod display;
