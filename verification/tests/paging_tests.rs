use media_backup_manager::model::{Asset, MediaMode, SavedSettings};
use media_backup_manager::paging::{
    parse_next_page, search_items_and_next, PageCursor, PageToken, SearchPage, SearchResponse,
};
use media_backup_manager::state::ImmichApp;

fn asset(id: &str, kind: &str, date: &str, size: i64) -> Asset {
    Asset {
        id: id.to_string(),
        original_file_name: format!("{}.jpg", id),
        device_asset_id: String::new(),
        asset_type: kind.to_string(),
        checksum: String::new(),
        local_date_time: date.to_string(),
        file_size_in_byte: size,
    }
}

fn app() -> ImmichApp {
    ImmichApp::new(SavedSettings {
        server: String::new(),
        api_key: String::new(),
        api_key_dpapi: String::new(),
    })
}

#[test]
fn items_under_assets_win() {
    let r = SearchResponse {
        assets: Some(SearchPage { items: Some(1), next_page: Some(PageToken::Text("2".to_string())) }),
        top: SearchPage { items: Some(9), next_page: None },
    };
    let (items, next) = search_items_and_next(r);
    assert_eq!(items, Some(1));
    assert_eq!(parse_next_page(next), Some(2));
}

#[test]
fn items_at_top_level_without_assets() {
    let r: SearchResponse<u8> = SearchResponse {
        assets: None,
        top: SearchPage { items: None, next_page: Some(PageToken::Number(Some(5))) },
    };
    let (items, next) = search_items_and_next(r);
    assert_eq!(items, None);
    assert_eq!(parse_next_page(next), Some(5));
}

#[test]
fn next_page_from_token() {
    assert_eq!(parse_next_page(Some(PageToken::Number(Some(3)))), Some(3));
    assert_eq!(parse_next_page(Some(PageToken::Number(None))), None);
    assert_eq!(parse_next_page(Some(PageToken::Text("12".to_string()))), Some(12));
    assert_eq!(parse_next_page(Some(PageToken::Text("+7".to_string()))), Some(7));
    assert_eq!(parse_next_page(Some(PageToken::Text("-4".to_string()))), Some(-4));
    assert_eq!(parse_next_page(Some(PageToken::Text(" 3".to_string()))), None);
    assert_eq!(parse_next_page(Some(PageToken::Text("3x".to_string()))), None);
    assert_eq!(parse_next_page(Some(PageToken::Text("".to_string()))), None);
    assert_eq!(parse_next_page(Some(PageToken::Text("-".to_string()))), None);
    assert_eq!(
        parse_next_page(Some(PageToken::Text("9223372036854775808".to_string()))),
        None
    );
    assert_eq!(
        parse_next_page(Some(PageToken::Text("-9223372036854775808".to_string()))),
        Some(i64::MIN)
    );
    assert_eq!(
        parse_next_page(Some(PageToken::Text("9223372036854775807".to_string()))),
        Some(i64::MAX)
    );
    assert_eq!(parse_next_page(Some(PageToken::Text("-9223372036854775809".to_string()))), None);
    assert_eq!(parse_next_page(Some(PageToken::Text("+-1".to_string()))), None);
    assert_eq!(parse_next_page(Some(PageToken::Text("007".to_string()))), Some(7));
    assert_eq!(parse_next_page(Some(PageToken::Other)), None);
    assert_eq!(parse_next_page(None), None);
}

#[test]
fn cursor_hands_out_each_page_once() {
    let mut c = PageCursor::new();
    assert_eq!(c.page, 1);
    assert_eq!(c.enter(), Ok(1));
    assert!(c.advance(Some(2)));
    assert_eq!(c.enter(), Ok(2));
    assert!(c.advance(Some(1)));
    assert_eq!(
        c.enter(),
        Err("Seitennavigation wiederholt Seite 1. Abbruch zum Schutz vor einer Endlosschleife."
            .to_string())
    );
    assert_eq!(c.seen, vec![1, 2]);
}

#[test]
fn cursor_stops_at_same_page_or_none() {
    let mut c = PageCursor::new();
    assert_eq!(c.enter(), Ok(1));
    assert!(!c.advance(Some(1)));
    assert_eq!(c.page, 1);
    assert!(!c.advance(None));
}

#[test]
fn repeated_negative_page_message() {
    let mut c = PageCursor::new();
    c.page = -3;
    assert_eq!(c.enter(), Ok(-3));
    assert_eq!(
        c.enter(),
        Err("Seitennavigation wiederholt Seite -3. Abbruch zum Schutz vor einer Endlosschleife."
            .to_string())
    );
}

#[test]
fn no_album_listing_filters_and_counts() {
    let mut a = app();
    a.media_mode = MediaMode::Photos;
    a.no_album_assets = vec![asset("old", "IMAGE", "2001-01-01", 1)];
    a.begin_no_album_load();
    assert_eq!(a.status, "Lade Fotos ohne Album nach Jahr ...");
    assert!(a.no_album_assets.is_empty());
    a.add_no_album_page(vec![
        asset("a", "IMAGE", "2020-05-01", 10),
        asset("b", "VIDEO", "2020-05-01", 10),
        asset("c", "IMAGE", "2019-05-01", 5),
    ]);
    a.add_no_album_page(vec![asset("d", "IMAGE", "2020-06-01", 1)]);
    let ids: Vec<&str> = a.no_album_assets.iter().map(|x| x.id.as_str()).collect();
    assert_eq!(ids, vec!["a", "c", "d"]);
    a.finish_no_album_load();
    assert_eq!(a.year_buckets.len(), 2);
    assert_eq!(a.year_buckets[0].year, "2020");
    assert_eq!(a.year_buckets[0].count, 2);
    assert_eq!(a.year_buckets[0].total_size, 11);
    assert_eq!(a.year_buckets[1].year, "2019");
    assert_eq!(
        a.status,
        "3 Fotos/Videos ohne Album geladen, gruppiert in 2 Jahresordner."
    );
}

#[test]
fn all_assets_listing_counts() {
    let mut a = app();
    a.begin_all_assets_load();
    assert_eq!(a.status, "Lade alle Fotos nach Jahr ...");
    a.add_all_assets_page(vec![
        asset("a", "IMAGE", "2020-05-01", 10),
        asset("b", "VIDEO", "2021-05-01", -5),
    ]);
    a.finish_all_assets_load();
    assert_eq!(a.all_year_buckets.len(), 2);
    assert_eq!(a.all_year_buckets[0].year, "2021");
    assert_eq!(a.all_year_buckets[0].total_size, 0);
    assert_eq!(
        a.status,
        "2 Fotos/Videos insgesamt geladen, gruppiert in 2 Jahresordner."
    );
}
