use media_backup_manager::apikey::{
    finish_unprotect_api_key, key_storage, needs_resave, protect_api_key, settings_record, settings_to_store,
    unprotect_api_key, with_opened_key, with_protected_key, DataProtection, KeyStorage,
};
use media_backup_manager::model::SavedSettings;

fn settings(server: &str, key: &str, sealed: &str) -> SavedSettings {
    SavedSettings {
        server: server.to_string(),
        api_key: key.to_string(),
        api_key_dpapi: sealed.to_string(),
    }
}

#[test]
fn protect_encodes_sealed_bytes_as_base64() {
    let r = protect_api_key(DataProtection::Done(b"hello".to_vec()));
    assert_eq!(r, Ok("aGVsbG8=".to_string()));
    let r = protect_api_key(DataProtection::Done(vec![0xfb, 0xff]));
    assert_eq!(r, Ok("+/8=".to_string()));
    let r = protect_api_key(DataProtection::Done(Vec::new()));
    assert_eq!(r, Ok(String::new()));
    let r = protect_api_key(DataProtection::Done(b"abc".to_vec()));
    assert_eq!(r, Ok("YWJj".to_string()));
}

#[test]
fn protect_reports_missing_or_failed_protection() {
    assert_eq!(
        protect_api_key(DataProtection::Unavailable),
        Err("DPAPI encryption is only available on Windows.".to_string())
    );
    assert_eq!(
        protect_api_key(DataProtection::Failed),
        Err("Windows DPAPI could not encrypt the API key.".to_string())
    );
}

#[test]
fn unprotect_decodes_stored_text() {
    assert_eq!(unprotect_api_key("aGVsbG8=", true), Ok(b"hello".to_vec()));
    assert_eq!(unprotect_api_key("", true), Ok(Vec::new()));
}

#[test]
fn unprotect_without_protection_decodes_nothing() {
    assert_eq!(
        unprotect_api_key("aGVsbG8=", false),
        Err("DPAPI decryption is only available on Windows.".to_string())
    );
}

#[test]
fn unprotect_refuses_invalid_text() {
    for bad in ["not base64!", "aGVsbG9=", "aGVsbG8", "a", "aGVs bG8="] {
        let r = unprotect_api_key(bad, true);
        let e = r.expect_err(bad);
        assert!(e.starts_with("Invalid encrypted API key: "), "{}", e);
        assert!(e.len() > "Invalid encrypted API key: ".len());
    }
}

#[test]
fn stored_key_reads_back() {
    for bytes in [
        Vec::new(),
        vec![0u8],
        vec![1, 2],
        vec![255, 254, 253],
        b"an api key of some length".to_vec(),
    ] {
        let stored = protect_api_key(DataProtection::Done(bytes.clone())).unwrap();
        assert_eq!(unprotect_api_key(&stored, true), Ok(bytes));
    }
}

#[test]
fn finish_gives_the_key_text() {
    assert_eq!(
        finish_unprotect_api_key(DataProtection::Done("schlüssel".as_bytes().to_vec())),
        Ok("schlüssel".to_string())
    );
}

#[test]
fn finish_refuses_invalid_utf8() {
    let e = finish_unprotect_api_key(DataProtection::Done(vec![0x61, 0xff])).unwrap_err();
    assert!(e.starts_with("Decrypted API key is not valid UTF-8: "), "{}", e);
    assert!(e.len() > "Decrypted API key is not valid UTF-8: ".len());
}

#[test]
fn finish_reports_failed_unsealing() {
    assert_eq!(
        finish_unprotect_api_key(DataProtection::Failed),
        Err("Windows DPAPI could not decrypt the API key for this Windows user.".to_string())
    );
    assert_eq!(
        finish_unprotect_api_key(DataProtection::Unavailable),
        Err("DPAPI decryption is only available on Windows.".to_string())
    );
}

#[test]
fn key_storage_prefers_protected_key() {
    assert_eq!(key_storage(&settings("s", "plain", "c2VhbGVk")), KeyStorage::Protected);
    assert_eq!(key_storage(&settings("s", "plain", "  ")), KeyStorage::Plain);
    assert_eq!(key_storage(&settings("s", " \t", "")), KeyStorage::Absent);
}

#[test]
fn opened_key_replaces_or_empties_key() {
    let s = with_opened_key(settings("srv", "", "enc"), Ok("key".to_string()));
    assert_eq!(s.api_key, "key");
    assert_eq!(s.server, "srv");
    assert_eq!(s.api_key_dpapi, "enc");
    let s = with_opened_key(settings("srv", "old", "enc"), Err("failed".to_string()));
    assert_eq!(s.api_key, "");
}

#[test]
fn record_holds_no_plain_key() {
    let r = settings_record("https://photos", "ZW5j".to_string());
    assert_eq!(r.server, "https://photos");
    assert_eq!(r.api_key, "");
    assert_eq!(r.api_key_dpapi, "ZW5j");
}

#[test]
fn protected_key_is_kept_beside_plain_key() {
    let s = with_protected_key(settings("srv", "plain", ""), "ZW5j".to_string());
    assert_eq!(s.api_key, "plain");
    assert_eq!(s.api_key_dpapi, "ZW5j");
    assert_eq!(s.server, "srv");
}

#[test]
fn resave_only_migrated_settings_with_key() {
    assert!(needs_resave(&settings("s", "k", ""), true));
    assert!(!needs_resave(&settings("s", "k", ""), false));
    assert!(!needs_resave(&settings("s", "  ", ""), true));
}

#[test]
fn stored_settings_for_each_protection_outcome() {
    let plain = settings_to_store("http://h", "secret", DataProtection::Unavailable).unwrap();
    assert_eq!(plain.server, "http://h");
    assert_eq!(plain.api_key, "secret");
    assert_eq!(plain.api_key_dpapi, "");
    let sealed = settings_to_store("http://h", "secret", DataProtection::Done(b"hello".to_vec())).unwrap();
    assert_eq!(sealed.server, "http://h");
    assert_eq!(sealed.api_key, "");
    assert_eq!(sealed.api_key_dpapi, "aGVsbG8=");
    let failed = settings_to_store("http://h", "secret", DataProtection::Failed);
    assert_eq!(failed.err(), Some("Windows DPAPI could not encrypt the API key.".to_string()));
}
