//! Storage of the API key: the key is sealed by the operating system's data
//! protection (done by the caller) and kept as standard base64 text.

use vstd::prelude::*;
use vstd::utf8::{decode_utf8, encode_utf8, valid_utf8};
use base64::engine::general_purpose::STANDARD;
use base64::Engine;
use crate::connection::text_result;
use crate::model::SavedSettings;
use crate::text::{all_ws, concat2, is_blank, owned};

verus! {

/// The character that stands for the 6-bit value `i` in the standard base64
/// alphabet (`A`-`Z`, `a`-`z`, `0`-`9`, `+`, `/`).
pub open spec fn b64_char(i: int) -> char {
    if i < 26 {
        (65 + i) as char
    } else if i < 52 {
        (97 + (i - 26)) as char
    } else if i < 62 {
        (48 + (i - 52)) as char
    } else if i == 62 {
        '+'
    } else {
        '/'
    }
}

/// Standard base64 with padding (RFC 4648): every three bytes become four
/// characters, a last group of one or two bytes is padded with `=`.
pub open spec fn b64_encode(bytes: Seq<u8>) -> Seq<char>
    decreases bytes.len(),
{
    if bytes.len() == 0 {
        Seq::empty()
    } else if bytes.len() == 1 {
        let b0 = bytes[0] as int;
        seq![b64_char(b0 / 4), b64_char((b0 % 4) * 16), '=', '=']
    } else if bytes.len() == 2 {
        let b0 = bytes[0] as int;
        let b1 = bytes[1] as int;
        seq![b64_char(b0 / 4), b64_char((b0 % 4) * 16 + b1 / 16), b64_char((b1 % 16) * 4), '=']
    } else {
        let b0 = bytes[0] as int;
        let b1 = bytes[1] as int;
        let b2 = bytes[2] as int;
        seq![
            b64_char(b0 / 4),
            b64_char((b0 % 4) * 16 + b1 / 16),
            b64_char((b1 % 16) * 4 + b2 / 64),
            b64_char(b2 % 64),
        ] + b64_encode(bytes.subrange(3, bytes.len() as int))
    }
}

/// Distinct 6-bit values have distinct characters, and none of them is the
/// padding character.
proof fn lemma_b64_char(i: int, j: int)
    requires
        0 <= i < 64,
        0 <= j < 64,
    ensures
        b64_char(i) != '=',
        b64_char(i) == b64_char(j) ==> i == j,
{
    assert('=' as int == 61);
    assert('+' as int == 43);
    assert('/' as int == 47);
}

/// Two splittings of one number into a high part times `k` and a rest below
/// `k` agree.
proof fn lemma_split_unique(hi1: int, lo1: int, hi2: int, lo2: int, k: int)
    by (nonlinear_arith)
    requires
        k > 0,
        0 <= lo1 < k,
        0 <= lo2 < k,
        hi1 * k + lo1 == hi2 * k + lo2,
    ensures
        hi1 == hi2,
        lo1 == lo2,
{
}

/// The four characters of a full group determine its three bytes.
proof fn lemma_group_bytes(b0: int, b1: int, b2: int, c0: int, c1: int, c2: int)
    requires
        0 <= b0 < 256,
        0 <= b1 < 256,
        0 <= b2 < 256,
        0 <= c0 < 256,
        0 <= c1 < 256,
        0 <= c2 < 256,
        b64_char(b0 / 4) == b64_char(c0 / 4),
        b64_char((b0 % 4) * 16 + b1 / 16) == b64_char((c0 % 4) * 16 + c1 / 16),
        b64_char((b1 % 16) * 4 + b2 / 64) == b64_char((c1 % 16) * 4 + c2 / 64),
        b64_char(b2 % 64) == b64_char(c2 % 64),
    ensures
        b0 == c0,
        b1 == c1,
        b2 == c2,
{
    lemma_b64_char(b0 / 4, c0 / 4);
    lemma_b64_char((b0 % 4) * 16 + b1 / 16, (c0 % 4) * 16 + c1 / 16);
    lemma_b64_char((b1 % 16) * 4 + b2 / 64, (c1 % 16) * 4 + c2 / 64);
    lemma_b64_char(b2 % 64, c2 % 64);
    lemma_split_unique(b0 % 4, b1 / 16, c0 % 4, c1 / 16, 16);
    lemma_split_unique(b1 % 16, b2 / 64, c1 % 16, c2 / 64, 4);
    lemma_split_unique(b0 / 4, b0 % 4, c0 / 4, c0 % 4, 4);
    lemma_split_unique(b1 / 16, b1 % 16, c1 / 16, c1 % 16, 16);
    lemma_split_unique(b2 / 64, b2 % 64, c2 / 64, c2 % 64, 64);
}

/// The encoding of a non-empty byte string has at least one group.
proof fn lemma_b64_nonempty(x: Seq<u8>)
    ensures
        x.len() == 0 <==> b64_encode(x).len() == 0,
        x.len() > 0 ==> b64_encode(x).len() >= 4,
{
    if x.len() >= 3 {
        let rest = b64_encode(x.subrange(3, x.len() as int));
        assert(b64_encode(x).len() == 4 + rest.len());
    }
}

/// Standard base64 is one-to-one: a text is the encoding of at most one byte
/// string, so decoding gives back exactly what was encoded.
pub proof fn lemma_b64_injective(a: Seq<u8>, b: Seq<u8>)
    requires
        b64_encode(a) == b64_encode(b),
    ensures
        a == b,
    decreases a.len(),
{
    let e = b64_encode(a);
    lemma_b64_nonempty(a);
    lemma_b64_nonempty(b);
    if a.len() == 0 || b.len() == 0 {
        assert(a.len() == 0 && b.len() == 0);
        assert(a =~= b);
    } else {
        let a0 = a[0] as int;
        let b0 = b[0] as int;
        lemma_b64_char(a0 / 4, b0 / 4);
        if a.len() >= 2 {
            lemma_b64_char((a0 % 4) * 16 + (a[1] as int) / 16, 0);
        }
        if b.len() >= 2 {
            lemma_b64_char((b0 % 4) * 16 + (b[1] as int) / 16, 0);
        }
        if a.len() == 2 {
            lemma_b64_char(((a[1] as int) % 16) * 4, 0);
        }
        if b.len() == 2 {
            lemma_b64_char(((b[1] as int) % 16) * 4, 0);
        }
        if a.len() >= 3 {
            lemma_b64_char(((a[1] as int) % 16) * 4 + (a[2] as int) / 64, 0);
            lemma_b64_char((a[2] as int) % 64, 0);
        }
        if b.len() >= 3 {
            lemma_b64_char(((b[1] as int) % 16) * 4 + (b[2] as int) / 64, 0);
            lemma_b64_char((b[2] as int) % 64, 0);
        }
        if a.len() == 1 {
            assert(e[2] == '=');
            assert(b.len() == 1);
            lemma_group_bytes(a0, 0, 0, b0, 0, 0);
            assert(a =~= b);
        } else if a.len() == 2 {
            assert(e[2] != '=' && e[3] == '=');
            assert(b.len() == 2);
            lemma_group_bytes(a0, a[1] as int, 0, b0, b[1] as int, 0);
            assert(a =~= b);
        } else {
            assert(e[2] != '=' && e[3] != '=');
            assert(b.len() >= 3);
            let ea = seq![
                b64_char(a0 / 4),
                b64_char((a0 % 4) * 16 + (a[1] as int) / 16),
                b64_char(((a[1] as int) % 16) * 4 + (a[2] as int) / 64),
                b64_char((a[2] as int) % 64),
            ];
            let eb = seq![
                b64_char(b0 / 4),
                b64_char((b0 % 4) * 16 + (b[1] as int) / 16),
                b64_char(((b[1] as int) % 16) * 4 + (b[2] as int) / 64),
                b64_char((b[2] as int) % 64),
            ];
            assert(e.subrange(0, 4) =~= ea);
            assert(b64_encode(b).subrange(0, 4) =~= eb);
            assert(ea[0] == eb[0] && ea[1] == eb[1] && ea[2] == eb[2] && ea[3] == eb[3]);
            lemma_group_bytes(a0, a[1] as int, a[2] as int, b0, b[1] as int, b[2] as int);
            let ra = a.subrange(3, a.len() as int);
            let rb = b.subrange(3, b.len() as int);
            assert(b64_encode(ra) =~= e.subrange(4, e.len() as int));
            assert(b64_encode(rb) =~= e.subrange(4, e.len() as int));
            lemma_b64_injective(ra, rb);
            assert(a =~= b) by {
                assert forall|i: int| 0 <= i < a.len() implies a[i] == b[i] by {
                    if i >= 3 {
                        assert(a[i] == ra[i - 3]);
                        assert(b[i] == rb[i - 3]);
                    }
                }
            }
        }
    }
}

/// The text of the error that standard base64 decoding reports for an input
/// that is no valid encoding (the `Display` of `base64::DecodeError`).
pub uninterp spec fn base64_error_text(s: Seq<char>) -> Seq<char>;

/// The text of the error that `String::from_utf8` reports for bytes that are
/// not valid UTF-8 (the `Display` of `std::string::FromUtf8Error`).
pub uninterp spec fn utf8_error_text(bytes: Seq<u8>) -> Seq<char>;

/// `base64::Engine::encode` on the `STANDARD` engine (standard alphabet,
/// padding on): the contract claims that the text is the RFC 4648 base64 of
/// the bytes. The crate panics where the length of the text overflows
/// `usize`; `requires` leaves those inputs out.
#[verifier::external_body]
fn base64_encode(bytes: &[u8]) -> (out: String)
    requires
        bytes@.len() / 3 * 4 + 4 <= usize::MAX,
    ensures
        out@ == b64_encode(bytes@),
{
    STANDARD.encode(bytes)
}

/// `base64::Engine::decode` on the `STANDARD` engine, which requires
/// canonical padding and no stray bits in the last symbol: the contract
/// claims that it succeeds exactly on the encodings of byte strings and then
/// gives those bytes, and that its error's text is a function of the input.
#[verifier::external_body]
fn base64_decode(s: &str) -> (r: Result<Vec<u8>, String>)
    ensures
        r matches Ok(v) ==> b64_encode(v@) == s@,
        r is Err ==> forall|v: Seq<u8>| b64_encode(v) != s@,
        r matches Err(t) ==> t@ == base64_error_text(s@),
{
    match STANDARD.decode(s) {
        Ok(v) => Ok(v),
        Err(e) => Err(format!("{e}")),
    }
}

/// `String::from_utf8`: the contract claims that it succeeds exactly on
/// valid UTF-8, gives the characters that the bytes encode, and that its
/// error's text is a function of the bytes.
#[verifier::external_body]
fn utf8_string(bytes: Vec<u8>) -> (r: Result<String, String>)
    ensures
        r is Ok <==> valid_utf8(bytes@),
        r matches Ok(s) ==> s@ == decode_utf8(bytes@),
        r matches Err(t) ==> t@ == utf8_error_text(bytes@),
{
    match String::from_utf8(bytes) {
        Ok(s) => Ok(s),
        Err(e) => Err(format!("{e}")),
    }
}

/// The outcome of the operating system's data protection (Windows DPAPI) on
/// some bytes: not available on this platform, failed, or done with the
/// resulting bytes.
#[derive(Debug)]
pub enum DataProtection {
    Unavailable,
    Failed,
    Done(Vec<u8>),
}

/// What storing a key gives, for each outcome of its protection.
pub open spec fn protect_spec(sealed: DataProtection) -> Result<Seq<char>, Seq<char>> {
    match sealed {
        DataProtection::Unavailable => Err("DPAPI encryption is only available on Windows."@),
        DataProtection::Failed => Err("Windows DPAPI could not encrypt the API key."@),
        DataProtection::Done(b) => Ok(b64_encode(b@)),
    }
}

/// Whether a text is the base64 encoding of some byte string.
pub open spec fn is_b64(s: Seq<char>) -> bool {
    exists|v: Seq<u8>| b64_encode(v) == s
}

/// The stored form of a key from the outcome of sealing its UTF-8 bytes:
/// the sealed bytes as standard base64, or the message for the failure.
pub fn protect_api_key(sealed: DataProtection) -> (r: Result<String, String>)
    requires
        sealed matches DataProtection::Done(b) ==> b@.len() / 3 * 4 + 4 <= usize::MAX,
    ensures
        text_result(r) == protect_spec(sealed),
{
    match sealed {
        DataProtection::Unavailable => Err(owned("DPAPI encryption is only available on Windows.")),
        DataProtection::Failed => Err(owned("Windows DPAPI could not encrypt the API key.")),
        DataProtection::Done(b) => Ok(base64_encode(b.as_slice())),
    }
}

/// The first step of reading a stored key: the sealed bytes that the stored
/// base64 text stands for. Where data protection is not available nothing is
/// decoded; a text that is no valid encoding is refused.
pub fn unprotect_api_key(encoded: &str, available: bool) -> (r: Result<Vec<u8>, String>)
    ensures
        !available ==> text_err(&r) == Some("DPAPI decryption is only available on Windows."@),
        available ==> (r is Ok <==> is_b64(encoded@)),
        r matches Ok(v) ==> available && b64_encode(v@) == encoded@,
        available && r is Err ==> text_err(&r) == Some(
            "Invalid encrypted API key: "@ + base64_error_text(encoded@),
        ),
{
    if !available {
        return Err(owned("DPAPI decryption is only available on Windows."));
    }
    match base64_decode(encoded) {
        Ok(v) => Ok(v),
        Err(t) => Err(concat2("Invalid encrypted API key: ", t.as_str())),
    }
}

/// The message of an error result, if it is one.
pub open spec fn text_err<T>(r: &Result<T, String>) -> Option<Seq<char>> {
    match r {
        Ok(_) => None,
        Err(e) => Some(e@),
    }
}

/// What reading a key gives, for each outcome of unsealing it.
pub open spec fn unseal_spec(opened: DataProtection) -> Result<Seq<char>, Seq<char>> {
    match opened {
        DataProtection::Unavailable => Err("DPAPI decryption is only available on Windows."@),
        DataProtection::Failed => Err(
            "Windows DPAPI could not decrypt the API key for this Windows user."@,
        ),
        DataProtection::Done(b) => if valid_utf8(b@) {
            Ok(decode_utf8(b@))
        } else {
            Err("Decrypted API key is not valid UTF-8: "@ + utf8_error_text(b@))
        },
    }
}

/// The last step of reading a stored key: the key from the outcome of
/// unsealing, which must be UTF-8 text.
pub fn finish_unprotect_api_key(opened: DataProtection) -> (r: Result<String, String>)
    ensures
        text_result(r) == unseal_spec(opened),
{
    match opened {
        DataProtection::Unavailable => Err(owned("DPAPI decryption is only available on Windows.")),
        DataProtection::Failed => Err(
            owned("Windows DPAPI could not decrypt the API key for this Windows user."),
        ),
        DataProtection::Done(b) => match utf8_string(b) {
            Ok(k) => Ok(k),
            Err(t) => Err(concat2("Decrypted API key is not valid UTF-8: ", t.as_str())),
        },
    }
}

/// What is stored is read back. The base64 text that `protect_api_key`
/// stores for sealed bytes is accepted by `unprotect_api_key` and stands for
/// those bytes and no others; and the UTF-8 bytes of a key, once unsealed,
/// give that key back through `finish_unprotect_api_key`.
pub proof fn lemma_stored_key_reads_back(key: Seq<char>, sealed: Seq<u8>, decoded: Seq<u8>)
    ensures
        is_b64(b64_encode(sealed)),
        b64_encode(decoded) == b64_encode(sealed) ==> decoded == sealed,
        valid_utf8(encode_utf8(key)),
        decode_utf8(encode_utf8(key)) == key,
{
    if b64_encode(decoded) == b64_encode(sealed) {
        lemma_b64_injective(decoded, sealed);
    }
    vstd::utf8::encode_utf8_valid_utf8(key);
    vstd::utf8::encode_utf8_decode_utf8(key);
}

/// Where a settings record keeps its key.
#[derive(PartialEq, Eq, Structural, Clone, Copy, Debug)]
pub enum KeyStorage {
    /// A protected key is stored; it is read through data protection.
    Protected,
    /// Only a plain key is stored (older versions); it is protected once.
    Plain,
    /// No key is stored.
    Absent,
}

/// Where the key of a settings record is, by what is not blank: the
/// protected key first.
pub open spec fn key_storage_spec(settings: SavedSettings) -> KeyStorage {
    if !all_ws(settings.api_key_dpapi@) {
        KeyStorage::Protected
    } else if !all_ws(settings.api_key@) {
        KeyStorage::Plain
    } else {
        KeyStorage::Absent
    }
}

/// Where the key of loaded settings is kept, and so how it is to be read.
pub fn key_storage(settings: &SavedSettings) -> (k: KeyStorage)
    ensures
        k == key_storage_spec(*settings),
{
    if !is_blank(settings.api_key_dpapi.as_str()) {
        KeyStorage::Protected
    } else if !is_blank(settings.api_key.as_str()) {
        KeyStorage::Plain
    } else {
        KeyStorage::Absent
    }
}

/// Loaded settings once their protected key was read: the key that was
/// read, or an empty key where reading failed.
pub fn with_opened_key(settings: SavedSettings, opened: Result<String, String>) -> (out:
    SavedSettings)
    ensures
        out.server@ == settings.server@,
        out.api_key_dpapi@ == settings.api_key_dpapi@,
        out.api_key@ == (match opened {
            Ok(k) => k@,
            Err(_) => Seq::<char>::empty(),
        }),
{
    let api_key = match opened {
        Ok(k) => k,
        Err(_) => String::new(),
    };
    SavedSettings { server: settings.server, api_key, api_key_dpapi: settings.api_key_dpapi }
}

/// The record that is written to the settings file: the server and the
/// protected key, never the plain key.
pub fn settings_record(server: &str, protected: String) -> (out: SavedSettings)
    ensures
        out.server@ == server@,
        out.api_key@ == Seq::<char>::empty(),
        out.api_key_dpapi@ == protected@,
{
    SavedSettings { server: owned(server), api_key: String::new(), api_key_dpapi: protected }
}

/// What stored settings hold for a server and a key, given the outcome of
/// sealing the key: the protected key and no plain key where it was sealed;
/// the plain key where the platform has no data protection (it is stored
/// unencrypted there); the message where sealing failed.
pub fn settings_to_store(server: &str, api_key: &str, sealed: DataProtection) -> (r: Result<
    SavedSettings,
    String,
>)
    requires
        sealed matches DataProtection::Done(b) ==> b@.len() / 3 * 4 + 4 <= usize::MAX,
    ensures
        sealed is Failed ==> (r matches Err(m) && m@
            == "Windows DPAPI could not encrypt the API key."@),
        sealed is Unavailable ==> (r matches Ok(s) && s.server@ == server@ && s.api_key@
            == api_key@ && s.api_key_dpapi@.len() == 0),
        sealed matches DataProtection::Done(b) ==> (r matches Ok(s) && s.server@ == server@
            && s.api_key@.len() == 0 && s.api_key_dpapi@ == b64_encode(b@)),
{
    match sealed {
        DataProtection::Unavailable => Ok(
            SavedSettings { server: owned(server), api_key: owned(api_key), api_key_dpapi: String::new() },
        ),
        DataProtection::Failed => Err(owned("Windows DPAPI could not encrypt the API key.")),
        DataProtection::Done(b) => {
            let stored = base64_encode(b.as_slice());
            Ok(settings_record(server, stored))
        },
    }
}

/// Loaded settings once their plain key was protected: the plain key stays
/// in use, the protected form is kept beside it.
pub fn with_protected_key(settings: SavedSettings, protected: String) -> (out: SavedSettings)
    ensures
        out.server@ == settings.server@,
        out.api_key@ == settings.api_key@,
        out.api_key_dpapi@ == protected@,
{
    SavedSettings { server: settings.server, api_key: settings.api_key, api_key_dpapi: protected }
}

/// Whether loaded settings are stored again at the current location: when
/// they came from the older location and hold a key.
pub fn needs_resave(settings: &SavedSettings, migrated_from_legacy: bool) -> (b: bool)
    ensures
        b == (migrated_from_legacy && !all_ws(settings.api_key@)),
{
    migrated_from_legacy && !is_blank(settings.api_key.as_str())
}

} // verus!
