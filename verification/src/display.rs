//! What the window shows of the state: the status line and its light, the
//! messages after user actions, the colours of the theme, how sizes are
//! written and how photos are turned upright.

use vstd::prelude::*;
use crate::model::ActiveTab;
use crate::state::ImmichApp;
use crate::text::{chars_of, has_prefix, lowercase, owned, push_str_chars, starts_with, string_of, to_lowercase};

verus! {

/// Whether a status line reports an error: in lower case it begins with
/// `fehler` or `error`.
pub open spec fn is_error_status(status: Seq<char>) -> bool {
    has_prefix(lowercase(status), "fehler"@) || has_prefix(lowercase(status), "error"@)
}

/// The light beside the status line.
#[derive(PartialEq, Eq, Structural, Clone, Copy, Debug)]
pub enum StatusLight {
    /// A download is running (amber).
    Busy,
    /// The status reports an error (red).
    Failure,
    /// Anything else (green).
    Fine,
}

/// The text a status line is preceded by when it reports an error.
pub open spec fn error_prefix(english: bool) -> Seq<char> {
    if english {
        "Error: "@
    } else {
        "Fehler: "@
    }
}

/// An 8-bit RGB colour.
#[derive(PartialEq, Eq, Structural, Clone, Copy, Debug)]
pub struct Rgb {
    pub r: u8,
    pub g: u8,
    pub b: u8,
}

/// Whether a status line, already in lower case, reports an error: it
/// begins with `fehler` or `error`.
pub fn is_error_text(lower: &str) -> (b: bool)
    ensures
        b == (has_prefix(lower@, "fehler"@) || has_prefix(lower@, "error"@)),
{
    let v = chars_of(lower);
    starts_with(&v, "fehler") || starts_with(&v, "error")
}

impl ImmichApp {
    /// Whether the status line reports an error.
    pub fn status_is_error(&self) -> (b: bool)
        ensures
            b == is_error_status(self.status@),
    {
        let lower = to_lowercase(self.status.as_str());
        is_error_text(lower.as_str())
    }

    /// The light beside the status line: busy while a download runs, else
    /// red for an error, else green.
    pub fn status_light(&self) -> (l: StatusLight)
        ensures
            l == (if self.download_running {
                StatusLight::Busy
            } else if is_error_status(self.status@) {
                StatusLight::Failure
            } else {
                StatusLight::Fine
            }),
    {
        if self.download_running {
            StatusLight::Busy
        } else if self.status_is_error() {
            StatusLight::Failure
        } else {
            StatusLight::Fine
        }
    }

    /// The status line as the footer shows it: the initial or an empty
    /// status as "ready" in the chosen language, any other as it is.
    pub fn footer_status(&self) -> (s: String)
        ensures
            s@ == (if self.status@ == "Bereit."@ || self.status@.len() == 0 {
                if self.english {
                    "Ready"@
                } else {
                    "Bereit"@
                }
            } else {
                self.status@
            }),
    {
        let initial = owned("Bereit.");
        if self.status == initial || self.status.as_str().is_empty() {
            if self.english {
                owned("Ready")
            } else {
                owned("Bereit")
            }
        } else {
            self.status.clone()
        }
    }

    /// Shows an error in the status line, in the chosen language.
    pub fn report_error(&mut self, error: &str)
        ensures
            final(self).status@ == error_prefix(old(self).english) + error@,
            *final(self) == (ImmichApp { status: final(self).status, ..*old(self) }),
    {
        let mut v: Vec<char> = Vec::new();
        push_str_chars(&mut v, if self.english { "Error: " } else { "Fehler: " });
        push_str_chars(&mut v, error);
        proof {
            assert(v@ =~= error_prefix(self.english) + error@);
        }
        self.status = string_of(&v);
    }

    /// After the stored settings were deleted (or deleting failed): the key
    /// field is emptied and the status says how it went.
    pub fn key_deleted(&mut self, result: Result<(), String>)
        ensures
            final(self).api_key@.len() == 0,
            result is Ok ==> final(self).status@ == (if old(self).english {
                "Saved API key deleted."@
            } else {
                "Gespeicherter API-Key wurde gelöscht."@
            }),
            result matches Err(e) ==> final(self).status@ == (if old(self).english {
                "API key could not be deleted: "@
            } else {
                "API-Key konnte nicht gelöscht werden: "@
            }) + e@,
            *final(self) == (ImmichApp {
                api_key: final(self).api_key,
                status: final(self).status,
                ..*old(self)
            }),
    {
        self.api_key = String::new();
        match result {
            Ok(()) => {
                self.status = if self.english {
                    owned("Saved API key deleted.")
                } else {
                    owned("Gespeicherter API-Key wurde gelöscht.")
                };
            },
            Err(e) => {
                let mut v: Vec<char> = Vec::new();
                push_str_chars(
                    &mut v,
                    if self.english {
                        "API key could not be deleted: "
                    } else {
                        "API-Key konnte nicht gelöscht werden: "
                    },
                );
                push_str_chars(&mut v, e.as_str());
                proof {
                    assert(v@ =~= (if self.english {
                        "API key could not be deleted: "@
                    } else {
                        "API-Key konnte nicht gelöscht werden: "@
                    }) + e@);
                }
                self.status = string_of(&v);
            },
        }
    }

    /// After the albums were loaded: the album tab is shown, and where
    /// storing the settings failed the status says so.
    pub fn albums_loaded(&mut self, saved: Result<(), String>)
        ensures
            final(self).active_tab == ActiveTab::Albums,
            saved is Ok ==> final(self).status == old(self).status,
            saved matches Err(e) ==> final(self).status@ == (if old(self).english {
                "Connection successful, saving failed: "@
            } else {
                "Verbindung erfolgreich, Speichern fehlgeschlagen: "@
            }) + e@,
            *final(self) == (ImmichApp {
                active_tab: final(self).active_tab,
                status: final(self).status,
                ..*old(self)
            }),
    {
        self.active_tab = ActiveTab::Albums;
        match saved {
            Ok(()) => {},
            Err(e) => {
                let mut v: Vec<char> = Vec::new();
                push_str_chars(
                    &mut v,
                    if self.english {
                        "Connection successful, saving failed: "
                    } else {
                        "Verbindung erfolgreich, Speichern fehlgeschlagen: "
                    },
                );
                push_str_chars(&mut v, e.as_str());
                proof {
                    assert(v@ =~= (if self.english {
                        "Connection successful, saving failed: "@
                    } else {
                        "Verbindung erfolgreich, Speichern fehlgeschlagen: "@
                    }) + e@);
                }
                self.status = string_of(&v);
            },
        }
    }

    /// The user asked to cancel the running download: the status and the
    /// download window say that it is being cancelled.
    pub fn request_cancel(&mut self)
        ensures
            final(self).status@ == "Abbruch angefordert – laufende Dateien werden noch beendet ..."@,
            final(self).download_file@ == "Download wird abgebrochen ..."@,
            *final(self) == (ImmichApp {
                status: final(self).status,
                download_file: final(self).download_file,
                ..*old(self)
            }),
    {
        self.status = owned("Abbruch angefordert – laufende Dateien werden noch beendet ...");
        self.download_file = owned("Download wird abgebrochen ...");
    }

    /// The settings window after a frame: it stays open while it was open
    /// and not closed; once closed, the key is hidden again.
    pub fn settings_window_closed(&mut self, open: bool, close_clicked: bool)
        ensures
            final(self).settings_popup == (open && !close_clicked),
            final(self).show_key == (old(self).show_key && open && !close_clicked),
            *final(self) == (ImmichApp {
                settings_popup: final(self).settings_popup,
                show_key: final(self).show_key,
                ..*old(self)
            }),
    {
        self.settings_popup = open && !close_clicked;
        if !self.settings_popup {
            self.show_key = false;
        }
    }

    /// The background of panels.
    pub fn panel_bg(&self) -> (c: Rgb)
        ensures
            c == (if self.dark_mode {
                Rgb { r: 18, g: 24, b: 30 }
            } else {
                Rgb { r: 255, g: 255, b: 255 }
            }),
    {
        if self.dark_mode {
            Rgb { r: 18, g: 24, b: 30 }
        } else {
            Rgb { r: 255, g: 255, b: 255 }
        }
    }

    /// The background of the header.
    pub fn header_bg(&self) -> (c: Rgb)
        ensures
            c == (if self.dark_mode {
                Rgb { r: 1, g: 4, b: 12 }
            } else {
                Rgb { r: 247, g: 248, b: 248 }
            }),
    {
        if self.dark_mode {
            Rgb { r: 1, g: 4, b: 12 }
        } else {
            Rgb { r: 247, g: 248, b: 248 }
        }
    }

    /// The background of the page.
    pub fn page_bg(&self) -> (c: Rgb)
        ensures
            c == (if self.dark_mode {
                Rgb { r: 13, g: 19, b: 24 }
            } else {
                Rgb { r: 247, g: 248, b: 250 }
            }),
    {
        if self.dark_mode {
            Rgb { r: 13, g: 19, b: 24 }
        } else {
            Rgb { r: 247, g: 248, b: 250 }
        }
    }

    /// The accent colour, the same in both themes.
    pub fn accent(&self) -> (c: Rgb)
        ensures
            c == (Rgb { r: 10, g: 159, b: 166 }),
    {
        Rgb { r: 10, g: 159, b: 166 }
    }
}

/// The unit a file size is written in.
#[derive(PartialEq, Eq, Structural, Clone, Copy, Debug)]
pub enum SizeUnit {
    /// The size is not known (zero or negative).
    Unknown,
    /// Whole bytes, below 1024.
    Bytes,
    /// Kibibytes with one decimal, below 1024².
    Kilo,
    /// Mebibytes with one decimal, below 1024³.
    Mega,
    /// Gibibytes with one decimal.
    Giga,
}

/// The unit for a size in bytes.
pub open spec fn unit_of(bytes: u64) -> SizeUnit {
    if bytes < 1024 {
        SizeUnit::Bytes
    } else if bytes < 1024 * 1024 {
        SizeUnit::Kilo
    } else if bytes < 1024 * 1024 * 1024 {
        SizeUnit::Mega
    } else {
        SizeUnit::Giga
    }
}

/// The unit a size in bytes is written in.
pub fn size_unit(bytes: u64) -> (u: SizeUnit)
    ensures
        u == unit_of(bytes),
{
    if bytes < 1024 {
        SizeUnit::Bytes
    } else if bytes < 1024 * 1024 {
        SizeUnit::Kilo
    } else if bytes < 1024 * 1024 * 1024 {
        SizeUnit::Mega
    } else {
        SizeUnit::Giga
    }
}

/// The unit a size that the server reports is written in: a size that is
/// not positive is unknown.
pub fn reported_size_unit(bytes: i64) -> (u: SizeUnit)
    ensures
        u == (if bytes <= 0 {
            SizeUnit::Unknown
        } else {
            unit_of(bytes as u64)
        }),
{
    if bytes <= 0 {
        SizeUnit::Unknown
    } else {
        size_unit(bytes as u64)
    }
}

/// How a photo is turned upright.
#[derive(PartialEq, Eq, Structural, Clone, Copy, Debug)]
pub enum Upright {
    AsIs,
    FlipHorizontal,
    Rotate180,
    FlipVertical,
    Rotate90FlipHorizontal,
    Rotate90,
    Rotate270FlipHorizontal,
    Rotate270,
}

/// How a photo with an EXIF orientation value is turned upright (values 2
/// to 8; any other leaves it as it is).
pub open spec fn upright_spec(orientation: u32) -> Upright {
    if orientation == 2 {
        Upright::FlipHorizontal
    } else if orientation == 3 {
        Upright::Rotate180
    } else if orientation == 4 {
        Upright::FlipVertical
    } else if orientation == 5 {
        Upright::Rotate90FlipHorizontal
    } else if orientation == 6 {
        Upright::Rotate90
    } else if orientation == 7 {
        Upright::Rotate270FlipHorizontal
    } else if orientation == 8 {
        Upright::Rotate270
    } else {
        Upright::AsIs
    }
}

/// The EXIF orientation of an image file, as `kamadak-exif` reads it from
/// the file's container: the first unsigned value of the `Orientation`
/// field of the primary image.
pub uninterp spec fn exif_orientation_of(bytes: Seq<u8>) -> Option<u32>;

/// `exif::Reader::read_from_container` on the bytes, then the first
/// unsigned value of the primary image's `Orientation` field: the contract
/// claims only that the result is a function of the bytes.
#[verifier::external_body]
fn exif_orientation(bytes: &[u8]) -> (r: Option<u32>)
    ensures
        r == exif_orientation_of(bytes@),
{
    let mut cursor = std::io::Cursor::new(bytes);
    match exif::Reader::new().read_from_container(&mut cursor) {
        Ok(data) => match data.get_field(exif::Tag::Orientation, exif::In::PRIMARY) {
            Some(field) => field.value.get_uint(0),
            None => None,
        },
        Err(_) => None,
    }
}

/// How a photo is turned upright for its orientation value.
pub fn upright_for(orientation: u32) -> (u: Upright)
    ensures
        u == upright_spec(orientation),
{
    match orientation {
        2 => Upright::FlipHorizontal,
        3 => Upright::Rotate180,
        4 => Upright::FlipVertical,
        5 => Upright::Rotate90FlipHorizontal,
        6 => Upright::Rotate90,
        7 => Upright::Rotate270FlipHorizontal,
        8 => Upright::Rotate270,
        _ => Upright::AsIs,
    }
}

/// How the preview of an image file is turned upright: a local original by
/// the orientation it records, a preview that the server made as it is
/// (the server has turned it already).
pub open spec fn upright_of(bytes: Seq<u8>, local_original: bool) -> Upright {
    if !local_original {
        Upright::AsIs
    } else {
        match exif_orientation_of(bytes) {
            Some(o) => upright_spec(o),
            None => Upright::AsIs,
        }
    }
}

/// How the preview of an image file is turned upright.
pub fn preview_upright(bytes: &[u8], local_original: bool) -> (u: Upright)
    ensures
        u == upright_of(bytes@, local_original),
{
    if !local_original {
        return Upright::AsIs;
    }
    match exif_orientation(bytes) {
        Some(o) => upright_for(o),
        None => Upright::AsIs,
    }
}

/// The turn sets the image on its side: width and height trade places.
pub open spec fn turns_sideways(u: Upright) -> bool {
    match u {
        Upright::Rotate90 | Upright::Rotate270 | Upright::Rotate90FlipHorizontal
        | Upright::Rotate270FlipHorizontal => true,
        _ => false,
    }
}

/// Width and height of the image that `image::load_from_memory` decodes
/// from the bytes; none where decoding fails.
pub uninterp spec fn decoded_size_of(bytes: Seq<u8>) -> Option<(u32, u32)>;

/// `image::load_from_memory`, then the width and height of the decoded
/// image: the contract claims only that the result is a function of the
/// bytes.
#[verifier::external_body]
fn decoded_size(bytes: &[u8]) -> (r: Option<(u32, u32)>)
    ensures
        r == decoded_size_of(bytes@),
{
    match image::load_from_memory(bytes) {
        Ok(img) => Some((img.width(), img.height())),
        Err(_) => None,
    }
}

/// Whether the turn sets the image on its side.
fn is_sideways(u: Upright) -> (b: bool)
    ensures
        b == turns_sideways(u),
{
    match u {
        Upright::Rotate90 | Upright::Rotate270 | Upright::Rotate90FlipHorizontal
        | Upright::Rotate270FlipHorizontal => true,
        _ => false,
    }
}

/// The resolution a preview shows: the decoded size, with width and
/// height traded where the upright turn sets the image on its side; none
/// where the bytes do not decode.
pub fn preview_size(bytes: &[u8], local_original: bool) -> (r: Option<(u32, u32)>)
    ensures
        r == match decoded_size_of(bytes@) {
            Some((w, h)) => Some(
                if turns_sideways(upright_of(bytes@, local_original)) {
                    (h, w)
                } else {
                    (w, h)
                },
            ),
            None => None,
        },
{
    match decoded_size(bytes) {
        Some((w, h)) => {
            let u = preview_upright(bytes, local_original);
            if is_sideways(u) {
                Some((h, w))
            } else {
                Some((w, h))
            }
        },
        None => None,
    }
}

} // verus!
