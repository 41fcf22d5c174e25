//! The progress of a running download, as the download reports it in
//! events, and what the window shows of it.

use vstd::prelude::*;
use crate::model::{ConflictItem, Progress};
use crate::selection::{selected_albums, selected_buckets};
use crate::state::ImmichApp;
use crate::text::{decimal, owned, push_decimal, push_str_chars, string_of};

verus! {

/// What a running download reports.
pub enum DownloadEvent {
    /// A step of preparation, described in words.
    Preparing(String),
    /// The album the download is at.
    AlbumProgress { current: usize, total: usize, album_name: String },
    /// The queue is ready with this many files.
    Prepared(usize),
    /// One more file is done.
    Progress {
        current: usize,
        total: usize,
        file_name: String,
        downloaded: usize,
        skipped: usize,
        failed: usize,
        active: usize,
    },
    /// The download ended, completely or cancelled.
    Finished {
        downloaded: usize,
        skipped: usize,
        failed: usize,
        conflicts: Vec<ConflictItem>,
        cancelled: bool,
    },
    /// The download stopped with an error.
    Error(String),
}

/// The line that names the album the download is at.
pub open spec fn album_line(english: bool, current: usize, total: usize, name: Seq<char>) -> Seq<char> {
    "Album "@ + decimal(current as nat) + (if english {
        " of "@
    } else {
        " von "@
    }) + decimal(total as nat) + ": "@ + name
}

/// The status line after a download ended.
pub open spec fn finished_status(
    english: bool,
    cancelled: bool,
    downloaded: usize,
    skipped: usize,
    failed: usize,
) -> Seq<char> {
    let lead = if cancelled {
        if english {
            "Cancelled. Downloaded: "@
        } else {
            "Abgebrochen. Heruntergeladen: "@
        }
    } else if english {
        "Finished. Downloaded: "@
    } else {
        "Fertig. Heruntergeladen: "@
    };
    let mid = if english {
        " | Existing: "@
    } else {
        " | Vorhanden: "@
    };
    let tail = if english {
        " | Errors: "@
    } else {
        " | Fehler: "@
    };
    lead + decimal(downloaded as nat) + mid + decimal(skipped as nat) + tail + decimal(failed as nat)
}

/// The line the download window shows after a download ended.
pub open spec fn finished_line(english: bool, cancelled: bool) -> Seq<char> {
    if cancelled {
        if english {
            "Download cancelled."@
        } else {
            "Download abgebrochen."@
        }
    } else if english {
        "Download completed."@
    } else {
        "Download abgeschlossen."@
    }
}

/// The state after an event, field by field.
pub open spec fn after_event(o: ImmichApp, n: ImmichApp, event: DownloadEvent) -> bool {
    match event {
        DownloadEvent::Preparing(text) => {
            &&& n == (ImmichApp { download_file: n.download_file, status: n.status, ..o })
            &&& n.download_file@ == text@
            &&& n.status@ == text@
        },
        DownloadEvent::AlbumProgress { current, total, album_name } => {
            &&& n == (ImmichApp {
                download_album_current: current,
                download_album_total: total,
                download_album_name: n.download_album_name,
                download_file: n.download_file,
                ..o
            })
            &&& n.download_album_name@ == album_name@
            &&& n.download_file@ == album_line(o.english, current, total, album_name@)
        },
        DownloadEvent::Prepared(total) => {
            n == (ImmichApp {
                download_total: total,
                download_current: 0,
                download_downloaded: 0,
                download_skipped: 0,
                download_failed: 0,
                download_active: 0,
                progress: Progress { done: 0, total: 0 },
                ..o
            })
        },
        DownloadEvent::Progress {
            current,
            total,
            file_name,
            downloaded,
            skipped,
            failed,
            active,
        } => {
            &&& n == (ImmichApp {
                download_current: current,
                download_total: total,
                download_file: n.download_file,
                download_downloaded: downloaded,
                download_skipped: skipped,
                download_failed: failed,
                download_active: active,
                progress: if total > 0 {
                    Progress { done: current, total }
                } else {
                    Progress { done: 0, total: 0 }
                },
                ..o
            })
            &&& n.download_file@ == file_name@
        },
        DownloadEvent::Finished { downloaded, skipped, failed, conflicts, cancelled } => {
            let compare = conflicts.len() > 0 && !cancelled;
            &&& n == (ImmichApp {
                download_running: false,
                download_downloaded: downloaded,
                download_skipped: skipped,
                download_failed: failed,
                download_active: 0,
                progress: if cancelled {
                    o.progress
                } else {
                    Progress { done: 1, total: 1 }
                },
                status: n.status,
                download_file: n.download_file,
                download_popup: false,
                protocol_selected_albums: selected_albums(o.albums@) as usize,
                protocol_selected_years: (selected_buckets(o.year_buckets@) + selected_buckets(
                    o.all_year_buckets@,
                )) as usize,
                download_protocol_popup: true,
                conflicts: n.conflicts,
                conflict_index: if compare {
                    0
                } else {
                    o.conflict_index
                },
                conflict_preview_key: if compare {
                    n.conflict_preview_key
                } else {
                    o.conflict_preview_key
                },
                conflict_local_dims: if compare {
                    None
                } else {
                    o.conflict_local_dims
                },
                conflict_remote_dims: if compare {
                    None
                } else {
                    o.conflict_remote_dims
                },
                conflict_popup: if compare {
                    true
                } else {
                    o.conflict_popup
                },
                ..o
            })
            &&& n.conflicts@ == conflicts@
            &&& compare ==> n.conflict_preview_key@.len() == 0
            &&& n.status@ == finished_status(o.english, cancelled, downloaded, skipped, failed)
            &&& n.download_file@ == finished_line(o.english, cancelled)
        },
        DownloadEvent::Error(msg) => {
            &&& n == (ImmichApp {
                download_running: false,
                download_file: n.download_file,
                status: n.status,
                ..o
            })
            &&& n.download_file@ == "Fehler: "@ + msg@
            &&& n.status@ == n.download_file@
        },
    }
}

/// The line that names the album the download is at.
fn album_text(english: bool, current: usize, total: usize, name: &str) -> (out: String)
    ensures
        out@ == album_line(english, current, total, name@),
{
    let mut v: Vec<char> = Vec::new();
    push_str_chars(&mut v, "Album ");
    push_decimal(&mut v, current as u64);
    push_str_chars(&mut v, if english { " of " } else { " von " });
    push_decimal(&mut v, total as u64);
    push_str_chars(&mut v, ": ");
    push_str_chars(&mut v, name);
    proof {
        assert(v@ =~= album_line(english, current, total, name@));
    }
    string_of(&v)
}

/// The status line after a download ended.
fn finished_text(english: bool, cancelled: bool, downloaded: usize, skipped: usize, failed: usize) -> (out:
    String)
    ensures
        out@ == finished_status(english, cancelled, downloaded, skipped, failed),
{
    let lead = if cancelled {
        if english {
            "Cancelled. Downloaded: "
        } else {
            "Abgebrochen. Heruntergeladen: "
        }
    } else if english {
        "Finished. Downloaded: "
    } else {
        "Fertig. Heruntergeladen: "
    };
    let mid = if english {
        " | Existing: "
    } else {
        " | Vorhanden: "
    };
    let tail = if english {
        " | Errors: "
    } else {
        " | Fehler: "
    };
    let mut v: Vec<char> = Vec::new();
    push_str_chars(&mut v, lead);
    push_decimal(&mut v, downloaded as u64);
    push_str_chars(&mut v, mid);
    push_decimal(&mut v, skipped as u64);
    push_str_chars(&mut v, tail);
    push_decimal(&mut v, failed as u64);
    proof {
        assert(v@ =~= finished_status(english, cancelled, downloaded, skipped, failed));
    }
    string_of(&v)
}

impl ImmichApp {
    /// Takes in one event of the running download: shows its step, counts
    /// and progress; at the end, the status line, the download log and,
    /// where existing files differ, the comparison of conflicting files.
    pub fn apply_download_event(&mut self, event: DownloadEvent)
        requires
            old(self).year_buckets.len() + old(self).all_year_buckets.len() <= usize::MAX,
        ensures
            after_event(*old(self), *final(self), event),
    {
        match event {
            DownloadEvent::Preparing(text) => self.show_step(text),
            DownloadEvent::AlbumProgress { current, total, album_name } => {
                self.show_album(current, total, album_name)
            },
            DownloadEvent::Prepared(total) => self.reset_counts(total),
            DownloadEvent::Progress {
                current,
                total,
                file_name,
                downloaded,
                skipped,
                failed,
                active,
            } => self.show_progress(current, total, file_name, downloaded, skipped, failed, active),
            DownloadEvent::Finished { downloaded, skipped, failed, conflicts, cancelled } => {
                self.finish_download(downloaded, skipped, failed, conflicts, cancelled)
            },
            DownloadEvent::Error(msg) => self.show_error(msg),
        }
    }

    /// A step of preparation.
    fn show_step(&mut self, text: String)
        ensures
            after_event(*old(self), *final(self), DownloadEvent::Preparing(text)),
    {
        self.download_file = text.clone();
        self.status = text;
    }

    /// The album the download is at.
    fn show_album(&mut self, current: usize, total: usize, album_name: String)
        ensures
            after_event(
                *old(self),
                *final(self),
                DownloadEvent::AlbumProgress { current, total, album_name },
            ),
    {
        self.download_album_current = current;
        self.download_album_total = total;
        self.download_file = album_text(self.english, current, total, album_name.as_str());
        self.download_album_name = album_name;
    }

    /// The queue is ready: every count starts again at zero.
    fn reset_counts(&mut self, total: usize)
        ensures
            after_event(*old(self), *final(self), DownloadEvent::Prepared(total)),
    {
        self.download_total = total;
        self.download_current = 0;
        self.download_downloaded = 0;
        self.download_skipped = 0;
        self.download_failed = 0;
        self.download_active = 0;
        self.progress = Progress { done: 0, total: 0 };
    }

    /// One more file is done.
    fn show_progress(
        &mut self,
        current: usize,
        total: usize,
        file_name: String,
        downloaded: usize,
        skipped: usize,
        failed: usize,
        active: usize,
    )
        ensures
            after_event(
                *old(self),
                *final(self),
                DownloadEvent::Progress {
                    current,
                    total,
                    file_name,
                    downloaded,
                    skipped,
                    failed,
                    active,
                },
            ),
    {
        self.download_current = current;
        self.download_total = total;
        self.download_file = file_name;
        self.download_downloaded = downloaded;
        self.download_skipped = skipped;
        self.download_failed = failed;
        self.download_active = active;
        self.progress = if total > 0 {
            Progress { done: current, total }
        } else {
            Progress { done: 0, total: 0 }
        };
    }

    /// The download stopped with an error.
    fn show_error(&mut self, msg: String)
        ensures
            after_event(*old(self), *final(self), DownloadEvent::Error(msg)),
    {
        self.download_running = false;
        let mut v: Vec<char> = Vec::new();
        push_str_chars(&mut v, "Fehler: ");
        push_str_chars(&mut v, msg.as_str());
        proof {
            assert(v@ =~= "Fehler: "@ + msg@);
        }
        self.download_file = string_of(&v);
        self.status = string_of(&v);
    }

    /// The end of a download: the counts, the status line, the download log
    /// and, where existing files differ and the download was not cancelled,
    /// the comparison of conflicting files.
    fn finish_download(
        &mut self,
        downloaded: usize,
        skipped: usize,
        failed: usize,
        conflicts: Vec<ConflictItem>,
        cancelled: bool,
    )
        requires
            old(self).year_buckets.len() + old(self).all_year_buckets.len() <= usize::MAX,
        ensures
            after_event(
                *old(self),
                *final(self),
                DownloadEvent::Finished { downloaded, skipped, failed, conflicts, cancelled },
            ),
    {
        let albums = self.selected_album_count();
        let years = self.selected_year_count();
        let all_years = self.selected_all_year_count();
        proof {
            lemma_selected_le(self.year_buckets@);
            lemma_selected_le(self.all_year_buckets@);
        }
        let status = finished_text(self.english, cancelled, downloaded, skipped, failed);
        let line = if cancelled {
            if self.english {
                owned("Download cancelled.")
            } else {
                owned("Download abgebrochen.")
            }
        } else if self.english {
            owned("Download completed.")
        } else {
            owned("Download abgeschlossen.")
        };
        let compare = conflicts.len() > 0 && !cancelled;
        self.download_running = false;
        self.download_downloaded = downloaded;
        self.download_skipped = skipped;
        self.download_failed = failed;
        self.download_active = 0;
        if !cancelled {
            self.progress = Progress { done: 1, total: 1 };
        }
        self.status = status;
        self.download_file = line;
        self.download_popup = false;
        self.protocol_selected_albums = albums;
        self.protocol_selected_years = years + all_years;
        self.download_protocol_popup = true;
        self.conflicts = conflicts;
        if compare {
            self.conflict_index = 0;
            self.conflict_preview_key = String::new();
            self.conflict_local_dims = None;
            self.conflict_remote_dims = None;
            self.conflict_popup = true;
        }
    }
}

/// No more year folders are selected than there are.
proof fn lemma_selected_le(s: Seq<crate::model::YearBucket>)
    ensures
        selected_buckets(s) <= s.len(),
    decreases s.len(),
{
    if s.len() > 0 {
        lemma_selected_le(s.drop_last());
    }
}

} // verus!
