//! The album list: the albums of the chosen kinds, sorted by name without
//! regard to case, with their selection marks.

use vstd::prelude::*;
use crate::model::{Album, SelectableAlbum};
use crate::state::ImmichApp;
use crate::text::{
    all_ws, chars_of, decimal, is_blank, lowercase, owned, push_str_chars, string_of, to_lowercase,
    trim, trim_chars, usize_text,
};
use crate::years::{lemma_lex_asym, lemma_lex_total, lemma_lex_trans, lex_less, lex_lt};

verus! {

/// Whether an album is of a kind the user wants listed: shared albums
/// where shared ones are wanted, own albums where own ones are.
pub open spec fn album_wanted(album: Album, own: bool, shared: bool) -> bool {
    (album.shared && shared) || (!album.shared && own)
}

/// The wanted albums, in the order the server gave them.
pub open spec fn wanted_albums(albums: Seq<Album>, own: bool, shared: bool) -> Seq<Album>
    decreases albums.len(),
{
    if albums.len() == 0 {
        Seq::empty()
    } else if album_wanted(albums.last(), own, shared) {
        wanted_albums(albums.drop_last(), own, shared).push(albums.last())
    } else {
        wanted_albums(albums.drop_last(), own, shared)
    }
}

/// The key an album is sorted by: its name in lower case.
pub open spec fn album_key(album: Album) -> Seq<char> {
    lowercase(album.album_name@)
}

/// `a` does not come after `b`.
pub open spec fn key_le(a: Seq<char>, b: Seq<char>) -> bool {
    !lex_lt(b, a)
}

/// `out` lists the albums of `input`, unselected, sorted by key, albums
/// with the same key in their order in `input`; `perm` gives for each
/// entry of `out` its position in `input`.
pub open spec fn stable_sort_of(out: Seq<SelectableAlbum>, input: Seq<Album>, perm: Seq<int>) -> bool {
    &&& out.len() == input.len()
    &&& perm.len() == input.len()
    &&& forall|k: int|
        0 <= k < out.len() ==> 0 <= #[trigger] perm[k] < input.len() && out[k].album == input[perm[k]]
            && !out[k].selected
    &&& forall|a: int, b: int| #![trigger perm[a], perm[b]] 0 <= a < b < out.len() ==> perm[a] != perm[b]
    &&& forall|a: int, b: int|
        #![trigger out[a], out[b]]
        0 <= a < b < out.len() ==> key_le(album_key(out[a].album), album_key(out[b].album))
    &&& forall|a: int, b: int|
        #![trigger out[a], out[b]]
        0 <= a < b < out.len() && album_key(out[a].album) == album_key(out[b].album) ==> perm[a]
            < perm[b]
}

/// `out` is `input` sorted stably by key, every album unselected.
pub open spec fn sorted_album_list(out: Seq<SelectableAlbum>, input: Seq<Album>) -> bool {
    exists|perm: Seq<int>| #[trigger] stable_sort_of(out, input, perm)
}

/// `out` lists the albums of `input`, unselected, sorted by the keys given
/// for them (`keys[i]` is the key of `input[i]`), albums with the same key
/// in their order in `input`; `perm` gives for each entry of `out` its
/// position in `input`.
pub open spec fn stable_sort_by(
    out: Seq<SelectableAlbum>,
    input: Seq<Album>,
    keys: Seq<Seq<char>>,
    perm: Seq<int>,
) -> bool {
    &&& out.len() == input.len()
    &&& keys.len() == input.len()
    &&& perm.len() == input.len()
    &&& forall|k: int|
        0 <= k < out.len() ==> 0 <= #[trigger] perm[k] < input.len() && out[k].album == input[perm[k]]
            && !out[k].selected
    &&& forall|a: int, b: int|
        #![trigger perm[a], perm[b]]
        0 <= a < b < out.len() ==> {
            &&& perm[a] != perm[b]
            &&& key_le(keys[perm[a]], keys[perm[b]])
            &&& (keys[perm[a]] == keys[perm[b]] ==> perm[a] < perm[b])
        }
}

/// `out` is `input` sorted stably by the keys given for its albums, every
/// album unselected.
pub open spec fn sorted_by_keys(out: Seq<SelectableAlbum>, input: Seq<Album>, keys: Seq<Seq<char>>) -> bool {
    exists|perm: Seq<int>| #[trigger] stable_sort_by(out, input, keys, perm)
}

/// Inserting an album at the place where every key before it is not
/// greater and every key after it is greater keeps the list a stable sort
/// of the input with the album appended.
proof fn lemma_insert_sorted(
    out: Seq<SelectableAlbum>,
    input: Seq<Album>,
    keys: Seq<Seq<char>>,
    perm: Seq<int>,
    x: Album,
    kx: Seq<char>,
    p: int,
)
    requires
        stable_sort_by(out, input, keys, perm),
        0 <= p <= out.len(),
        forall|q: int| 0 <= q < p ==> key_le(keys[#[trigger] perm[q]], kx),
        forall|q: int| p <= q < out.len() ==> lex_lt(kx, keys[#[trigger] perm[q]]),
    ensures
        stable_sort_by(
            out.insert(p, SelectableAlbum { album: x, selected: false }),
            input.push(x),
            keys.push(kx),
            perm.insert(p, input.len() as int),
        ),
{
    let e = SelectableAlbum { album: x, selected: false };
    let o2 = out.insert(p, e);
    let i2 = input.push(x);
    let k2 = keys.push(kx);
    let p2 = perm.insert(p, input.len() as int);
    let n = input.len() as int;
    assert forall|k: int| 0 <= k < o2.len() implies 0 <= #[trigger] p2[k] < i2.len() && o2[k].album
        == i2[p2[k]] && !o2[k].selected by {
        if k < p {
            assert(o2[k] == out[k] && p2[k] == perm[k]);
        } else if k > p {
            assert(o2[k] == out[k - 1] && p2[k] == perm[k - 1]);
        }
    }
    assert forall|a: int, b: int| #![trigger p2[a], p2[b]] 0 <= a < b < o2.len() implies {
        &&& p2[a] != p2[b]
        &&& key_le(k2[p2[a]], k2[p2[b]])
        &&& (k2[p2[a]] == k2[p2[b]] ==> p2[a] < p2[b])
    } by {
        if a != p && b != p {
            let a0 = if a < p { a } else { a - 1 };
            let b0 = if b < p { b } else { b - 1 };
            assert(p2[a] == perm[a0] && p2[b] == perm[b0]);
            assert(0 <= perm[a0] < n && 0 <= perm[b0] < n);
            assert(k2[perm[a0]] == keys[perm[a0]] && k2[perm[b0]] == keys[perm[b0]]);
        } else if a == p {
            assert(p2[b] == perm[b - 1]);
            assert(0 <= perm[b - 1] < n);
            assert(k2[perm[b - 1]] == keys[perm[b - 1]]);
            assert(lex_lt(kx, keys[perm[b - 1]]));
            lemma_lex_asym(kx, keys[perm[b - 1]]);
        } else {
            assert(p2[a] == perm[a]);
            assert(0 <= perm[a] < n);
            assert(k2[perm[a]] == keys[perm[a]]);
            assert(key_le(keys[perm[a]], kx));
        }
    }
}

/// Where a key goes into a sorted list of keys: after every key that is not
/// greater.
fn insert_position(keys: &Vec<Vec<char>>, key: &Vec<char>) -> (p: usize)
    ensures
        p <= keys.len(),
        forall|q: int| 0 <= q < p ==> !lex_lt(key@, #[trigger] keys@[q]@),
        p < keys.len() ==> lex_lt(key@, keys@[p as int]@),
{
    let mut p: usize = 0;
    while p < keys.len() && !lex_less(key, &keys[p])
        invariant
            p <= keys.len(),
            forall|q: int| 0 <= q < p ==> !lex_lt(key@, #[trigger] keys@[q]@),
        decreases keys.len() - p,
    {
        p = p + 1;
    }
    p
}

/// Sorts albums by the keys given for them (`keys[i]` for `input[i]`),
/// stably, every album unselected.
pub fn sort_by_keys(input: &Vec<Album>, keys: &Vec<String>) -> (out: Vec<SelectableAlbum>)
    requires
        keys.len() == input.len(),
    ensures
        sorted_by_keys(out@, input@, keys@.map_values(|s: String| s@)),
{
    let ghost kk = keys@.map_values(|s: String| s@);
    let mut out: Vec<SelectableAlbum> = Vec::new();
    let mut kv: Vec<Vec<char>> = Vec::new();
    let ghost mut perm: Seq<int> = Seq::empty();
    let mut i: usize = 0;
    proof {
        assert(input@.take(0) =~= Seq::<Album>::empty());
        assert(kk.take(0) =~= Seq::<Seq<char>>::empty());
    }
    while i < input.len()
        invariant
            i <= input.len(),
            keys.len() == input.len(),
            kk == keys@.map_values(|s: String| s@),
            kv.len() == out.len(),
            out.len() == i,
            stable_sort_by(out@, input@.take(i as int), kk.take(i as int), perm),
            forall|k: int| 0 <= k < kv.len() ==> (#[trigger] kv@[k])@ == kk[perm[k]],
        decreases input.len() - i,
    {
        let key = chars_of(keys[i].as_str());
        let p = insert_position(&kv, &key);
        let x = input[i].duplicate();
        proof {
            let o = out@;
            let kt = kk.take(i as int);
            assert(key@ == kk[i as int]);
            assert forall|q: int| 0 <= q < p implies key_le(kt[#[trigger] perm[q]], key@) by {
                assert(kv@[q]@ == kk[perm[q]]);
                assert(0 <= perm[q] < i);
                assert(kt[perm[q]] == kk[perm[q]]);
            }
            assert forall|q: int| p <= q < o.len() implies lex_lt(key@, kt[#[trigger] perm[q]]) by {
                assert(kv@[q]@ == kk[perm[q]]);
                assert(kv@[p as int]@ == kk[perm[p as int]]);
                assert(0 <= perm[q] < i && 0 <= perm[p as int] < i);
                assert(kt[perm[q]] == kk[perm[q]] && kt[perm[p as int]] == kk[perm[p as int]]);
                if q > p {
                    assert(key_le(kt[perm[p as int]], kt[perm[q]]));
                    lemma_lex_total(kt[perm[p as int]], kt[perm[q]]);
                    if kt[perm[p as int]] != kt[perm[q]] {
                        lemma_lex_trans(key@, kt[perm[p as int]], kt[perm[q]]);
                    }
                }
            }
            lemma_insert_sorted(o, input@.take(i as int), kt, perm, x, key@, p as int);
            assert(input@.take(i as int).push(x) =~= input@.take(i + 1));
            assert(kt.push(key@) =~= kk.take(i + 1));
        }
        let ghost old_kv = kv@;
        let ghost old_perm = perm;
        out.insert(p, SelectableAlbum { album: x, selected: false });
        kv.insert(p, key);
        proof {
            perm = perm.insert(p as int, i as int);
            assert forall|k: int| 0 <= k < kv.len() implies (#[trigger] kv@[k])@ == kk[perm[k]] by {
                if k < p {
                    assert(kv@[k] == old_kv[k] && perm[k] == old_perm[k]);
                } else if k > p {
                    assert(kv@[k] == old_kv[k - 1] && perm[k] == old_perm[k - 1]);
                }
            }
        }
        i = i + 1;
    }
    proof {
        assert(input@.take(input.len() as int) =~= input@);
        assert(kk.take(input.len() as int) =~= kk);
    }
    out
}

/// Sorting by the albums' own keys is the album list's order.
proof fn lemma_sorted_by_album_keys(
    out: Seq<SelectableAlbum>,
    input: Seq<Album>,
    keys: Seq<Seq<char>>,
)
    requires
        sorted_by_keys(out, input, keys),
        forall|i: int| 0 <= i < input.len() ==> keys[i] == album_key(#[trigger] input[i]),
    ensures
        sorted_album_list(out, input),
{
    let perm = choose|perm: Seq<int>| #[trigger] stable_sort_by(out, input, keys, perm);
    assert forall|a: int, b: int| #![trigger out[a], out[b]] 0 <= a < b < out.len() implies key_le(
        album_key(out[a].album),
        album_key(out[b].album),
    ) && (album_key(out[a].album) == album_key(out[b].album) ==> perm[a] < perm[b]) && perm[a]
        != perm[b] by {
        assert(0 <= perm[a] < input.len() && 0 <= perm[b] < input.len());
        assert(keys[perm[a]] == album_key(input[perm[a]]));
        assert(keys[perm[b]] == album_key(input[perm[b]]));
    }
    assert forall|a: int, b: int| #![trigger perm[a], perm[b]] 0 <= a < b < out.len() implies perm[a]
        != perm[b] by {
        assert(out[a] == out[a] && out[b] == out[b]);
    }
    assert(stable_sort_of(out, input, perm));
}

/// The wanted albums, copied in order.
fn wanted(albums: &Vec<Album>, own: bool, shared: bool) -> (out: Vec<Album>)
    ensures
        out@ == wanted_albums(albums@, own, shared),
{
    let mut out: Vec<Album> = Vec::new();
    let mut i: usize = 0;
    while i < albums.len()
        invariant
            i <= albums.len(),
            out@ == wanted_albums(albums@.take(i as int), own, shared),
        decreases albums.len() - i,
    {
        proof {
            assert(albums@.take(i + 1).drop_last() =~= albums@.take(i as int));
        }
        if (albums[i].shared && shared) || (!albums[i].shared && own) {
            out.push(albums[i].duplicate());
        }
        i = i + 1;
    }
    proof {
        assert(albums@.take(albums.len() as int) =~= albums@);
    }
    out
}

/// The album list for the albums the server gave: those of the wanted
/// kinds, unselected, sorted by name without regard to case, albums whose
/// names differ only in case in the server's order.
pub fn album_list(albums: &Vec<Album>, own: bool, shared: bool) -> (out: Vec<SelectableAlbum>)
    ensures
        sorted_album_list(out@, wanted_albums(albums@, own, shared)),
{
    let kept = wanted(albums, own, shared);
    let mut keys: Vec<String> = Vec::new();
    let mut i: usize = 0;
    while i < kept.len()
        invariant
            i <= kept.len(),
            keys.len() == i,
            forall|k: int| 0 <= k < i ==> (#[trigger] keys@[k])@ == album_key(kept@[k]),
        decreases kept.len() - i,
    {
        keys.push(to_lowercase(kept[i].album_name.as_str()));
        i = i + 1;
    }
    let out = sort_by_keys(&kept, &keys);
    proof {
        let kk = keys@.map_values(|s: String| s@);
        assert forall|k: int| 0 <= k < kept@.len() implies kk[k] == album_key(#[trigger] kept@[k]) by {
            assert(kk[k] == keys@[k]@);
        }
        lemma_sorted_by_album_keys(out@, kept@, kk);
    }
    out
}

/// The status line after the albums were loaded.
pub open spec fn albums_status(n: nat) -> Seq<char> {
    "Verbindung erfolgreich. "@ + decimal(n) + " Album/Alben geladen."@
}

impl ImmichApp {
    /// The status while the albums are requested.
    pub fn begin_album_load(&mut self)
        ensures
            final(self).status@ == "Verbinde mit Immich ..."@,
            *final(self) == (ImmichApp { status: final(self).status, ..*old(self) }),
    {
        self.status = owned("Verbinde mit Immich ...");
    }

    /// Shows the albums the server gave: the album list of the kinds the
    /// user wants, sorted, and the status that counts them.
    pub fn show_albums(&mut self, albums: &Vec<Album>)
        ensures
            sorted_album_list(
                final(self).albums@,
                wanted_albums(albums@, old(self).own_albums, old(self).shared_albums),
            ),
            final(self).status@ == albums_status(final(self).albums@.len()),
            *final(self) == (ImmichApp {
                albums: final(self).albums,
                status: final(self).status,
                ..*old(self)
            }),
    {
        let items = album_list(albums, self.own_albums, self.shared_albums);
        let n = items.len();
        self.albums = items;
        let mut v: Vec<char> = Vec::new();
        push_str_chars(&mut v, "Verbindung erfolgreich. ");
        push_str_chars(&mut v, usize_text(n).as_str());
        push_str_chars(&mut v, " Album/Alben geladen.");
        proof {
            assert(v@ =~= albums_status(n as nat));
        }
        self.status = string_of(&v);
    }
}

/// The thumbnail an album names itself, where that is not blank; only
/// without one are the album's details asked for.
pub fn known_thumbnail(known: Option<String>) -> (r: Option<String>)
    ensures
        r == (if known matches Some(id) && !all_ws(id@) {
            known
        } else {
            None
        }),
{
    match known {
        Some(id) => if is_blank(id.as_str()) {
            None
        } else {
            Some(id)
        },
        None => None,
    }
}

/// What an album's details hold that names a thumbnail: the text of
/// `albumThumbnailAssetId` and the text of the first asset's `id`, where
/// they are texts.
#[derive(Debug)]
pub struct AlbumDetails {
    pub thumbnail_asset_id: Option<String>,
    pub first_asset_id: Option<String>,
}

/// The thumbnail an album's details name: the one given for the album,
/// else its first asset.
pub fn details_thumbnail(details: AlbumDetails) -> (r: Option<String>)
    ensures
        r == (if details.thumbnail_asset_id is Some {
            details.thumbnail_asset_id
        } else {
            details.first_asset_id
        }),
{
    match details.thumbnail_asset_id {
        Some(id) => Some(id),
        None => details.first_asset_id,
    }
}

/// Whether `t` occurs in `s`.
pub open spec fn contains_text(s: Seq<char>, t: Seq<char>) -> bool {
    exists|i: int| 0 <= i && i + t.len() <= s.len() && #[trigger] s.subrange(i, i + t.len()) == t
}

/// Whether `t` occurs in `s` at position `i`.
fn occurs_at(s: &Vec<char>, t: &Vec<char>, i: usize) -> (b: bool)
    requires
        i + t.len() <= s.len(),
    ensures
        b == (s@.subrange(i as int, i + t.len()) == t@),
{
    let mut k: usize = 0;
    while k < t.len()
        invariant
            k <= t.len(),
            i + t.len() <= s.len(),
            forall|j: int| 0 <= j < k ==> s@[i + j] == t@[j],
        decreases t.len() - k,
    {
        if s[i + k] != t[k] {
            proof {
                assert(s@.subrange(i as int, i + t.len())[k as int] != t@[k as int]);
            }
            return false;
        }
        k = k + 1;
    }
    proof {
        assert(s@.subrange(i as int, i + t.len()) =~= t@);
    }
    true
}

/// Whether a search text, already trimmed and in lower case, occurs in a
/// name, already in lower case.
pub fn contains_search(lower_name: &str, lower_search: &str) -> (b: bool)
    ensures
        b == contains_text(lower_name@, lower_search@),
{
    let needle = chars_of(lower_search);
    let hay = chars_of(lower_name);
    if needle.len() > hay.len() {
        proof {
            if contains_text(hay@, needle@) {
                let i = choose|i: int| 0 <= i && i + needle@.len() <= hay@.len() && #[trigger] hay@.subrange(
                    i,
                    i + needle@.len(),
                ) == needle@;
            }
        }
        return false;
    }
    let last = hay.len() - needle.len();
    let mut i: usize = 0;
    while i <= last
        invariant
            needle.len() <= hay.len(),
            last == hay.len() - needle.len(),
            i <= last + 1,
            hay@ == lower_name@,
            needle@ == lower_search@,
            forall|j: int| 0 <= j < i ==> #[trigger] hay@.subrange(j, j + needle@.len()) != needle@,
        ensures
            forall|j: int| 0 <= j <= last ==> #[trigger] hay@.subrange(j, j + needle@.len()) != needle@,
        decreases last + 1 - i,
    {
        if occurs_at(&hay, &needle, i) {
            proof {
                assert(hay@.subrange(i as int, i + needle@.len()) == needle@);
            }
            return true;
        }
        if i == last {
            break;
        }
        i = i + 1;
    }
    proof {
        if contains_text(hay@, needle@) {
            let j = choose|j: int| 0 <= j && j + needle@.len() <= hay@.len() && #[trigger] hay@.subrange(
                j,
                j + needle@.len(),
            ) == needle@;
            assert(j <= last);
        }
    }
    false
}

/// Whether a name is found by a search text: every name is found by a blank
/// search; otherwise the trimmed search text must occur in the name, case
/// ignored.
pub fn matches_search(name: &str, search: &str) -> (b: bool)
    ensures
        b == (all_ws(search@) || contains_text(lowercase(name@), lowercase(trim(search@)))),
{
    if is_blank(search) {
        return true;
    }
    let trimmed = string_of(&trim_chars(&chars_of(search)));
    let lower_search = to_lowercase(trimmed.as_str());
    let lower_name = to_lowercase(name);
    contains_search(lower_name.as_str(), lower_search.as_str())
}

} // verus!
