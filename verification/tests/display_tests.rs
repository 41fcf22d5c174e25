use media_backup_manager::display::{
    is_error_text, preview_size, preview_upright, reported_size_unit, size_unit, upright_for, Rgb, SizeUnit, StatusLight,
    Upright,
};
use media_backup_manager::model::{ActiveTab, SavedSettings};
use media_backup_manager::state::ImmichApp;

fn fresh() -> ImmichApp {
    ImmichApp::new(SavedSettings {
        server: String::new(),
        api_key: "key".to_string(),
        api_key_dpapi: String::new(),
    })
}

#[test]
fn error_status_recognised_without_case() {
    let mut a = fresh();
    a.status = "Fehler: kaputt".to_string();
    assert!(a.status_is_error());
    a.status = "ERROR: broken".to_string();
    assert!(a.status_is_error());
    a.status = "Bereit.".to_string();
    assert!(!a.status_is_error());
    a.status = " Fehler".to_string();
    assert!(!a.status_is_error());
}

#[test]
fn status_light_by_state() {
    let mut a = fresh();
    assert_eq!(a.status_light(), StatusLight::Fine);
    a.status = "Error: x".to_string();
    assert_eq!(a.status_light(), StatusLight::Failure);
    a.download_running = true;
    assert_eq!(a.status_light(), StatusLight::Busy);
}

#[test]
fn footer_shows_ready_for_initial_status() {
    let mut a = fresh();
    assert_eq!(a.footer_status(), "Bereit");
    a.english = true;
    assert_eq!(a.footer_status(), "Ready");
    a.status = String::new();
    assert_eq!(a.footer_status(), "Ready");
    a.status = "Läuft".to_string();
    assert_eq!(a.footer_status(), "Läuft");
}

#[test]
fn errors_reported_in_language() {
    let mut a = fresh();
    a.report_error("kaputt");
    assert_eq!(a.status, "Fehler: kaputt");
    a.english = true;
    a.report_error("broken");
    assert_eq!(a.status, "Error: broken");
}

#[test]
fn deleting_key_reports_outcome() {
    let mut a = fresh();
    a.key_deleted(Ok(()));
    assert_eq!(a.api_key, "");
    assert_eq!(a.status, "Gespeicherter API-Key wurde gelöscht.");
    a.english = true;
    a.key_deleted(Err("locked".to_string()));
    assert_eq!(a.status, "API key could not be deleted: locked");
    a.key_deleted(Ok(()));
    assert_eq!(a.status, "Saved API key deleted.");
    a.english = false;
    a.key_deleted(Err("gesperrt".to_string()));
    assert_eq!(a.status, "API-Key konnte nicht gelöscht werden: gesperrt");
}

#[test]
fn loaded_albums_show_album_tab() {
    let mut a = fresh();
    a.active_tab = ActiveTab::NoAlbum;
    a.status = "ok".to_string();
    a.albums_loaded(Ok(()));
    assert_eq!(a.active_tab, ActiveTab::Albums);
    assert_eq!(a.status, "ok");
    a.albums_loaded(Err("disk full".to_string()));
    assert_eq!(a.status, "Verbindung erfolgreich, Speichern fehlgeschlagen: disk full");
    a.english = true;
    a.albums_loaded(Err("disk full".to_string()));
    assert_eq!(a.status, "Connection successful, saving failed: disk full");
}

#[test]
fn cancel_request_messages() {
    let mut a = fresh();
    a.request_cancel();
    assert_eq!(a.status, "Abbruch angefordert – laufende Dateien werden noch beendet ...");
    assert_eq!(a.download_file, "Download wird abgebrochen ...");
}

#[test]
fn closing_settings_hides_key() {
    let mut a = fresh();
    a.show_key = true;
    a.settings_window_closed(true, false);
    assert!(a.settings_popup);
    assert!(a.show_key);
    a.settings_window_closed(true, true);
    assert!(!a.settings_popup);
    assert!(!a.show_key);
}

#[test]
fn theme_colours() {
    let mut a = fresh();
    assert_eq!(a.panel_bg(), Rgb { r: 18, g: 24, b: 30 });
    assert_eq!(a.header_bg(), Rgb { r: 1, g: 4, b: 12 });
    assert_eq!(a.page_bg(), Rgb { r: 13, g: 19, b: 24 });
    a.dark_mode = false;
    assert_eq!(a.panel_bg(), Rgb { r: 255, g: 255, b: 255 });
    assert_eq!(a.header_bg(), Rgb { r: 247, g: 248, b: 248 });
    assert_eq!(a.page_bg(), Rgb { r: 247, g: 248, b: 250 });
    assert_eq!(a.accent(), Rgb { r: 10, g: 159, b: 166 });
}

#[test]
fn size_units() {
    assert_eq!(size_unit(0), SizeUnit::Bytes);
    assert_eq!(size_unit(1023), SizeUnit::Bytes);
    assert_eq!(size_unit(1024), SizeUnit::Kilo);
    assert_eq!(size_unit(1024 * 1024 - 1), SizeUnit::Kilo);
    assert_eq!(size_unit(1024 * 1024), SizeUnit::Mega);
    assert_eq!(size_unit(1024 * 1024 * 1024), SizeUnit::Giga);
    assert_eq!(reported_size_unit(0), SizeUnit::Unknown);
    assert_eq!(reported_size_unit(-5), SizeUnit::Unknown);
    assert_eq!(reported_size_unit(2048), SizeUnit::Kilo);
}

#[test]
fn orientation_values() {
    assert_eq!(upright_for(1), Upright::AsIs);
    assert_eq!(upright_for(2), Upright::FlipHorizontal);
    assert_eq!(upright_for(3), Upright::Rotate180);
    assert_eq!(upright_for(4), Upright::FlipVertical);
    assert_eq!(upright_for(5), Upright::Rotate90FlipHorizontal);
    assert_eq!(upright_for(6), Upright::Rotate90);
    assert_eq!(upright_for(7), Upright::Rotate270FlipHorizontal);
    assert_eq!(upright_for(8), Upright::Rotate270);
    assert_eq!(upright_for(9), Upright::AsIs);
}

#[test]
fn preview_without_exif_stays() {
    assert_eq!(preview_upright(b"not an image", true), Upright::AsIs);
    assert_eq!(preview_upright(b"not an image", false), Upright::AsIs);
}

fn tiff_with_orientation(value: u16) -> Vec<u8> {
    let mut v = vec![b'I', b'I', 42, 0, 8, 0, 0, 0];
    v.extend_from_slice(&[1, 0]);
    v.extend_from_slice(&[0x12, 0x01]);
    v.extend_from_slice(&[3, 0]);
    v.extend_from_slice(&[1, 0, 0, 0]);
    v.extend_from_slice(&[(value & 0xff) as u8, (value >> 8) as u8, 0, 0]);
    v.extend_from_slice(&[0, 0, 0, 0]);
    v
}

#[test]
fn preview_follows_exif_orientation() {
    let bytes = tiff_with_orientation(6);
    assert_eq!(preview_upright(&bytes, true), Upright::Rotate90);
    assert_eq!(preview_upright(&bytes, false), Upright::AsIs);
    assert_eq!(preview_upright(&tiff_with_orientation(3), true), Upright::Rotate180);
}

#[test]
fn error_texts_by_prefix() {
    assert!(is_error_text("fehler beim laden"));
    assert!(is_error_text("error: timeout"));
    assert!(!is_error_text("kein fehler"));
    assert!(!is_error_text("Error"));
    assert!(!is_error_text(""));
}

fn png(w: u32, h: u32) -> Vec<u8> {
    let img = image::RgbImage::new(w, h);
    let mut out = std::io::Cursor::new(Vec::new());
    image::DynamicImage::ImageRgb8(img).write_to(&mut out, image::ImageFormat::Png).unwrap();
    out.into_inner()
}

fn crc32(data: &[u8]) -> u32 {
    let mut c: u32 = 0xffff_ffff;
    for &b in data {
        c ^= b as u32;
        for _ in 0..8 {
            c = if c & 1 != 0 { 0xedb8_8320 ^ (c >> 1) } else { c >> 1 };
        }
    }
    !c
}

/// A PNG whose EXIF orientation (in an `eXIf` chunk after the header) is
/// `orientation`.
fn png_with_orientation(w: u32, h: u32, orientation: u8) -> Vec<u8> {
    let plain = png(w, h);
    let tiff: Vec<u8> = vec![
        0x4d, 0x4d, 0x00, 0x2a, 0x00, 0x00, 0x00, 0x08, 0x00, 0x01, 0x01, 0x12, 0x00, 0x03, 0x00,
        0x00, 0x00, 0x01, 0x00, orientation, 0x00, 0x00, 0x00, 0x00, 0x00, 0x00,
    ];
    let mut chunk = Vec::new();
    chunk.extend_from_slice(&(tiff.len() as u32).to_be_bytes());
    let mut body = b"eXIf".to_vec();
    body.extend_from_slice(&tiff);
    chunk.extend_from_slice(&body);
    chunk.extend_from_slice(&crc32(&body).to_be_bytes());
    let mut out = plain[..33].to_vec();
    out.extend_from_slice(&chunk);
    out.extend_from_slice(&plain[33..]);
    out
}

#[test]
fn preview_size_follows_upright_turn() {
    let plain = png(3, 2);
    assert_eq!(preview_size(&plain, false), Some((3, 2)));
    assert_eq!(preview_size(&plain, true), Some((3, 2)));
    let turned = png_with_orientation(3, 2, 6);
    assert_eq!(preview_upright(&turned, true), Upright::Rotate90);
    assert_eq!(preview_size(&turned, true), Some((2, 3)));
    assert_eq!(preview_size(&turned, false), Some((3, 2)));
    let mirrored = png_with_orientation(3, 2, 2);
    assert_eq!(preview_size(&mirrored, true), Some((3, 2)));
    assert_eq!(preview_size(b"not an image", true), None);
}
