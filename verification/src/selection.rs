//! What the user selected, and the start of a download from it.

use vstd::prelude::*;
use crate::connection::{api_key_spec, base_url_spec};
use crate::model::{
    ActiveTab, Album, Asset, ExistingMode, MediaMode, Progress, SelectableAlbum, YearBucket,
};
use crate::state::ImmichApp;
use crate::text::{all_ws, is_blank, owned, string_of, trim, trim_chars, chars_of};

verus! {

/// The number of selected albums.
pub open spec fn selected_albums(s: Seq<SelectableAlbum>) -> nat
    decreases s.len(),
{
    if s.len() == 0 {
        0
    } else {
        selected_albums(s.drop_last()) + if s.last().selected {
            1nat
        } else {
            0nat
        }
    }
}

/// The number of selected year folders.
pub open spec fn selected_buckets(s: Seq<YearBucket>) -> nat
    decreases s.len(),
{
    if s.len() == 0 {
        0
    } else {
        selected_buckets(s.drop_last()) + if s.last().selected {
            1nat
        } else {
            0nat
        }
    }
}

/// The selected albums, in order.
pub open spec fn selected_album_list(s: Seq<SelectableAlbum>) -> Seq<Album>
    decreases s.len(),
{
    if s.len() == 0 {
        Seq::empty()
    } else if s.last().selected {
        selected_album_list(s.drop_last()).push(s.last().album)
    } else {
        selected_album_list(s.drop_last())
    }
}

/// The years of the selected year folders, in order.
pub open spec fn selected_year_list(s: Seq<YearBucket>) -> Seq<Seq<char>>
    decreases s.len(),
{
    if s.len() == 0 {
        Seq::empty()
    } else if s.last().selected {
        selected_year_list(s.drop_last()).push(s.last().year@)
    } else {
        selected_year_list(s.drop_last())
    }
}

/// Whether an entry of the album list is marked.
pub open spec fn album_marked() -> spec_fn(SelectableAlbum) -> bool {
    |x: SelectableAlbum| x.selected
}

/// The album of an entry of the album list.
pub open spec fn album_of() -> spec_fn(SelectableAlbum) -> Album {
    |x: SelectableAlbum| x.album
}

/// Whether a year folder is marked.
pub open spec fn bucket_marked() -> spec_fn(YearBucket) -> bool {
    |x: YearBucket| x.selected
}

/// The year of a year folder.
pub open spec fn year_of_bucket() -> spec_fn(YearBucket) -> Seq<char> {
    |x: YearBucket| x.year@
}

/// The albums a download takes are exactly the marked ones of the list, in
/// list order: the list's marked entries, their albums taken; so each is
/// the album of a marked entry, every marked entry's album is among them,
/// and there are as many as marked entries.
pub proof fn lemma_selected_albums_are_marked(s: Seq<SelectableAlbum>)
    ensures
        selected_album_list(s) == s.filter(album_marked()).map_values(album_of()),
        selected_album_list(s).len() == selected_albums(s),
        forall|k: int|
            0 <= k < selected_album_list(s).len() ==> exists|i: int|
                0 <= i < s.len() && s[i].selected && s[i].album == #[trigger] selected_album_list(
                    s,
                )[k],
        forall|i: int| #![trigger s[i]]
            0 <= i < s.len() && s[i].selected ==> selected_album_list(s).contains(s[i].album),
    decreases s.len(),
{
    reveal(Seq::filter);
    let r = selected_album_list(s);
    if s.len() == 0 {
        assert(s.filter(album_marked()).map_values(album_of()) =~= r);
    } else {
        let p = s.drop_last();
        let x = s.last();
        let rp = selected_album_list(p);
        lemma_selected_albums_are_marked(p);
        assert(s.filter(album_marked()) == if x.selected {
            p.filter(album_marked()).push(x)
        } else {
            p.filter(album_marked())
        });
        if x.selected {
            assert(p.filter(album_marked()).push(x).map_values(album_of()) =~= p.filter(
                album_marked(),
            ).map_values(album_of()).push(x.album));
        }
        assert forall|k: int| 0 <= k < r.len() implies exists|i: int|
            0 <= i < s.len() && s[i].selected && s[i].album == #[trigger] r[k] by {
            if k < rp.len() {
                let i = choose|i: int| 0 <= i < p.len() && p[i].selected && p[i].album == #[trigger] rp[k];
                assert(s[i] == p[i]);
                assert(r[k] == rp[k]);
            } else {
                assert(s[s.len() - 1] == x);
            }
        }
        assert forall|i: int| #![trigger s[i]] 0 <= i < s.len() && s[i].selected implies r.contains(
            s[i].album,
        ) by {
            if i < p.len() {
                assert(p[i] == s[i]);
                let k = choose|k: int| 0 <= k < rp.len() && rp[k] == p[i].album;
                assert(r[k] == rp[k]);
            } else {
                assert(r[r.len() - 1] == x.album);
            }
        }
    }
}

/// Some marked year folder has the year `y`.
pub open spec fn marked_year(s: Seq<YearBucket>, y: Seq<char>) -> bool {
    exists|i: int| 0 <= i < s.len() && (#[trigger] s[i]).selected && s[i].year@ == y
}

/// The years a download takes are exactly those of the marked year
/// folders, in list order: each is the year of a marked folder, every
/// marked folder's year is among them, and there are as many as marked
/// folders.
pub proof fn lemma_selected_years_are_marked(s: Seq<YearBucket>)
    ensures
        selected_year_list(s) == s.filter(bucket_marked()).map_values(year_of_bucket()),
        selected_year_list(s).len() == selected_buckets(s),
        forall|k: int|
            0 <= k < selected_year_list(s).len() ==> marked_year(s, #[trigger] selected_year_list(
                s,
            )[k]),
        forall|i: int| #![trigger s[i]]
            0 <= i < s.len() && s[i].selected ==> selected_year_list(s).contains(s[i].year@),
    decreases s.len(),
{
    reveal(Seq::filter);
    let r = selected_year_list(s);
    if s.len() == 0 {
        assert(s.filter(bucket_marked()).map_values(year_of_bucket()) =~= r);
    } else {
        let p = s.drop_last();
        let x = s.last();
        let rp = selected_year_list(p);
        lemma_selected_years_are_marked(p);
        assert(s.filter(bucket_marked()) == if x.selected {
            p.filter(bucket_marked()).push(x)
        } else {
            p.filter(bucket_marked())
        });
        if x.selected {
            assert(p.filter(bucket_marked()).push(x).map_values(year_of_bucket()) =~= p.filter(
                bucket_marked(),
            ).map_values(year_of_bucket()).push(x.year@));
        }
        assert forall|k: int| 0 <= k < r.len() implies marked_year(s, #[trigger] r[k]) by {
            if k < rp.len() {
                assert(marked_year(p, rp[k]));
                let i = choose|i: int| 0 <= i < p.len() && (#[trigger] p[i]).selected && p[i].year@ == rp[k];
                assert(s[i] == p[i]);
                assert(r[k] == rp[k]);
            } else {
                assert(s[s.len() - 1] == x);
                assert(x.selected);
                assert(r[k] == x.year@);
                assert(0 <= s.len() - 1 < s.len() && s[s.len() - 1].selected && s[s.len()
                    - 1].year@ == r[k]);
            }
        }
        assert forall|i: int| #![trigger s[i]] 0 <= i < s.len() && s[i].selected implies r.contains(
            s[i].year@,
        ) by {
            if i < p.len() {
                assert(p[i] == s[i]);
                let k = choose|k: int| 0 <= k < rp.len() && rp[k] == p[i].year@;
                assert(r[k] == rp[k]);
            } else {
                assert(r[r.len() - 1] == x.year@);
            }
        }
    }
}

/// The selected items of the active tab: albums on the album tab, years on
/// a year tab, nothing from the other tabs.
pub open spec fn tab_albums(app: ImmichApp) -> Seq<Album> {
    if app.active_tab == ActiveTab::Albums {
        selected_album_list(app.albums@)
    } else {
        Seq::empty()
    }
}

/// The years selected on the tab of assets without album, where it is
/// active.
pub open spec fn tab_years(app: ImmichApp) -> Seq<Seq<char>> {
    if app.active_tab == ActiveTab::NoAlbum {
        selected_year_list(app.year_buckets@)
    } else {
        Seq::empty()
    }
}

/// The years selected on the tab of all assets, where it is active.
pub open spec fn tab_all_years(app: ImmichApp) -> Seq<Seq<char>> {
    if app.active_tab == ActiveTab::AllByYear {
        selected_year_list(app.all_year_buckets@)
    } else {
        Seq::empty()
    }
}

/// Why a download cannot start, checked in this order: one is running, no
/// destination folder, no server, no API key, nothing selected on the
/// active tab.
pub open spec fn download_refusal(app: ImmichApp) -> Option<Seq<char>> {
    if app.download_running {
        Some("Ein Download läuft bereits."@)
    } else if trim(app.target_dir@).len() == 0 {
        Some("Bitte zuerst ein Download-Verzeichnis auswählen."@)
    } else if base_url_spec(app.server@) is Err {
        Some(base_url_spec(app.server@)->Err_0)
    } else if api_key_spec(app.api_key@) is Err {
        Some(api_key_spec(app.api_key@)->Err_0)
    } else if tab_albums(app).len() == 0 && tab_years(app).len() == 0 && tab_all_years(app).len()
        == 0 {
        Some(
            if app.english {
                "Select at least one album or year folder."@
            } else {
                "Bitte mindestens ein Album oder einen Jahresordner auswählen."@
            },
        )
    } else {
        None
    }
}

/// What a download works from: where it goes, what it takes and how.
#[derive(Debug)]
pub struct DownloadRequest {
    pub base: String,
    pub api_key: String,
    pub target_dir: String,
    pub albums: Vec<Album>,
    pub years: Vec<String>,
    pub all_years: Vec<String>,
    pub no_album_assets: Vec<Asset>,
    pub all_assets: Vec<Asset>,
    pub media_mode: MediaMode,
    pub existing_mode: ExistingMode,
    pub deduplicate: bool,
    pub parallel_downloads: usize,
}

/// A copy of a list of assets.
pub fn copy_assets(v: &Vec<Asset>) -> (out: Vec<Asset>)
    ensures
        out@ == v@,
{
    let mut out: Vec<Asset> = Vec::new();
    let mut i: usize = 0;
    while i < v.len()
        invariant
            i <= v.len(),
            out@ == v@.take(i as int),
        decreases v.len() - i,
    {
        out.push(v[i].duplicate());
        proof {
            assert(v@.take(i as int).push(v@[i as int]) =~= v@.take(i + 1));
        }
        i = i + 1;
    }
    proof {
        assert(v@.take(v.len() as int) =~= v@);
    }
    out
}

/// The selected albums.
fn collect_albums(v: &Vec<SelectableAlbum>) -> (out: Vec<Album>)
    ensures
        out@ == selected_album_list(v@),
{
    let mut out: Vec<Album> = Vec::new();
    let mut i: usize = 0;
    while i < v.len()
        invariant
            i <= v.len(),
            out@ == selected_album_list(v@.take(i as int)),
        decreases v.len() - i,
    {
        proof {
            assert(v@.take(i + 1).drop_last() =~= v@.take(i as int));
        }
        if v[i].selected {
            out.push(v[i].album.duplicate());
        }
        i = i + 1;
    }
    proof {
        assert(v@.take(v.len() as int) =~= v@);
    }
    out
}

/// The years of the selected year folders.
fn collect_years(v: &Vec<YearBucket>) -> (out: Vec<String>)
    ensures
        out@.map_values(|s: String| s@) == selected_year_list(v@),
{
    let mut out: Vec<String> = Vec::new();
    let mut i: usize = 0;
    while i < v.len()
        invariant
            i <= v.len(),
            out@.map_values(|s: String| s@) == selected_year_list(v@.take(i as int)),
        decreases v.len() - i,
    {
        proof {
            assert(v@.take(i + 1).drop_last() =~= v@.take(i as int));
        }
        if v[i].selected {
            let ghost before = out@;
            out.push(v[i].year.clone());
            proof {
                assert(out@.map_values(|s: String| s@) =~= before.map_values(|s: String| s@).push(
                    v@[i as int].year@,
                ));
            }
        }
        i = i + 1;
    }
    proof {
        assert(v@.take(v.len() as int) =~= v@);
    }
    out
}

impl ImmichApp {
    /// The number of selected albums.
    pub fn selected_album_count(&self) -> (n: usize)
        ensures
            n == selected_albums(self.albums@),
    {
        let mut n: usize = 0;
        let mut i: usize = 0;
        while i < self.albums.len()
            invariant
                i <= self.albums.len(),
                n == selected_albums(self.albums@.take(i as int)),
                n <= i,
            decreases self.albums.len() - i,
        {
            proof {
                assert(self.albums@.take(i + 1).drop_last() =~= self.albums@.take(i as int));
            }
            if self.albums[i].selected {
                n = n + 1;
            }
            i = i + 1;
        }
        proof {
            assert(self.albums@.take(self.albums.len() as int) =~= self.albums@);
        }
        n
    }

    /// The number of selected year folders of all assets.
    pub fn selected_all_year_count(&self) -> (n: usize)
        ensures
            n == selected_buckets(self.all_year_buckets@),
    {
        count_selected_buckets(&self.all_year_buckets)
    }

    /// The number of selected year folders of assets without album.
    pub fn selected_year_count(&self) -> (n: usize)
        ensures
            n == selected_buckets(self.year_buckets@),
    {
        count_selected_buckets(&self.year_buckets)
    }

    /// Marks every album selected (`on`) or not.
    pub fn set_all_albums_selected(&mut self, on: bool)
        ensures
            final(self).albums.len() == old(self).albums.len(),
            forall|i: int|
                0 <= i < final(self).albums.len() ==> (#[trigger] final(self).albums[i]).selected
                    == on && final(self).albums[i].album == old(self).albums[i].album,
            *final(self) == (ImmichApp { albums: final(self).albums, ..*old(self) }),
    {
        let mut i: usize = 0;
        while i < self.albums.len()
            invariant
                i <= self.albums.len(),
                self.albums.len() == old(self).albums.len(),
                forall|a: int|
                    0 <= a < self.albums.len() ==> (#[trigger] self.albums[a]).album == old(
                        self,
                    ).albums[a].album && (a < i ==> self.albums[a].selected == on) && (a >= i
                        ==> self.albums[a].selected == old(self).albums[a].selected),
                *self == (ImmichApp { albums: self.albums, ..*old(self) }),
            decreases self.albums.len() - i,
        {
            let mut item = self.albums[i].album.duplicate();
            self.albums.set(i, SelectableAlbum { album: item, selected: on });
            i = i + 1;
        }
    }

    /// Marks every year folder of assets without album selected (`on`) or
    /// not.
    pub fn set_all_years_selected(&mut self, on: bool)
        ensures
            final(self).year_buckets.len() == old(self).year_buckets.len(),
            forall|i: int|
                0 <= i < final(self).year_buckets.len() ==> (#[trigger] final(self).year_buckets[i]).selected
                    == on && final(self).year_buckets[i].year == old(self).year_buckets[i].year
                    && final(self).year_buckets[i].count == old(self).year_buckets[i].count
                    && final(self).year_buckets[i].total_size == old(self).year_buckets[i].total_size,
            *final(self) == (ImmichApp { year_buckets: final(self).year_buckets, ..*old(self) }),
    {
        let mut b = Vec::new();
        std::mem::swap(&mut b, &mut self.year_buckets);
        set_buckets_selected(&mut b, on);
        self.year_buckets = b;
    }

    /// Marks every year folder of all assets selected (`on`) or not.
    pub fn set_all_all_years_selected(&mut self, on: bool)
        ensures
            final(self).all_year_buckets.len() == old(self).all_year_buckets.len(),
            forall|i: int|
                0 <= i < final(self).all_year_buckets.len() ==> (#[trigger] final(self).all_year_buckets[i]).selected
                    == on && final(self).all_year_buckets[i].year == old(self).all_year_buckets[i].year
                    && final(self).all_year_buckets[i].count == old(self).all_year_buckets[i].count
                    && final(self).all_year_buckets[i].total_size == old(self).all_year_buckets[i].total_size,
            *final(self) == (ImmichApp { all_year_buckets: final(self).all_year_buckets, ..*old(self) }),
    {
        let mut b = Vec::new();
        std::mem::swap(&mut b, &mut self.all_year_buckets);
        set_buckets_selected(&mut b, on);
        self.all_year_buckets = b;
    }

    /// Whether the download button is enabled: no download running,
    /// something selected, and a destination folder entered.
    pub fn can_download(&self) -> (b: bool)
        ensures
            b == (!self.download_running && selected_albums(self.albums@) + selected_buckets(
                self.year_buckets@,
            ) + selected_buckets(self.all_year_buckets@) > 0 && !all_ws(self.target_dir@)),
    {
        let some = self.selected_album_count() > 0 || self.selected_year_count() > 0
            || self.selected_all_year_count() > 0;
        !self.download_running && some && !is_blank(self.target_dir.as_str())
    }

    /// Starts a download of what is selected on the active tab: refuses with
    /// the reason where it cannot start (state unchanged), else marks the
    /// download running, resets its counters and hands back what the
    /// download works from.
    pub fn start_background_download(&mut self) -> (r: Result<DownloadRequest, String>)
        ensures
            download_refusal(*old(self)) matches Some(msg) ==> r is Err && r->Err_0@ == msg
                && *final(self) == *old(self),
            download_refusal(*old(self)) is None ==> r is Ok && ({
                let req = r->Ok_0;
                let o = *old(self);
                &&& req.base@ == base_url_spec(o.server@)->Ok_0
                &&& req.api_key@ == api_key_spec(o.api_key@)->Ok_0
                &&& req.target_dir@ == trim(o.target_dir@)
                &&& req.albums@ == tab_albums(o)
                &&& req.years@.map_values(|s: String| s@) == tab_years(o)
                &&& req.all_years@.map_values(|s: String| s@) == tab_all_years(o)
                &&& req.no_album_assets@ == o.no_album_assets@
                &&& req.all_assets@ == o.all_assets@
                &&& req.media_mode == o.media_mode
                &&& req.existing_mode == o.existing_mode
                &&& req.deduplicate == o.deduplicate
                &&& req.parallel_downloads == (if o.parallel_downloads > 1 {
                    o.parallel_downloads
                } else {
                    1
                })
                &&& *final(self) == (ImmichApp {
                    download_running: true,
                    download_popup: true,
                    download_current: 0,
                    download_total: 0,
                    download_file: final(self).download_file,
                    download_downloaded: 0,
                    download_skipped: 0,
                    download_failed: 0,
                    download_active: 0,
                    download_album_current: 0,
                    download_album_total: tab_albums(o).len() as usize,
                    download_album_name: final(self).download_album_name,
                    progress: Progress { done: 0, total: 0 },
                    status: final(self).status,
                    ..o
                })
                &&& final(self).download_file@ == "Download wird vorbereitet ..."@
                &&& final(self).download_album_name@.len() == 0
                &&& final(self).status@ == "Download gestartet ..."@
            }),
    {
        if self.download_running {
            return Err(owned("Ein Download läuft bereits."));
        }
        let target = trim_chars(&chars_of(self.target_dir.as_str()));
        if target.len() == 0 {
            return Err(owned("Bitte zuerst ein Download-Verzeichnis auswählen."));
        }
        let base = match self.base_url() {
            Ok(b) => b,
            Err(e) => {
                return Err(e);
            },
        };
        let api_key = match self.ensure_api_key() {
            Ok(k) => k,
            Err(e) => {
                return Err(e);
            },
        };
        let albums = if self.active_tab == ActiveTab::Albums {
            collect_albums(&self.albums)
        } else {
            Vec::new()
        };
        let years = if self.active_tab == ActiveTab::NoAlbum {
            collect_years(&self.year_buckets)
        } else {
            Vec::new()
        };
        let all_years = if self.active_tab == ActiveTab::AllByYear {
            collect_years(&self.all_year_buckets)
        } else {
            Vec::new()
        };
        proof {
            assert(years@.map_values(|s: String| s@).len() == years.len());
            assert(all_years@.map_values(|s: String| s@).len() == all_years.len());
            if self.active_tab != ActiveTab::NoAlbum {
                assert(years@.map_values(|s: String| s@) =~= Seq::<Seq<char>>::empty());
            }
            if self.active_tab != ActiveTab::AllByYear {
                assert(all_years@.map_values(|s: String| s@) =~= Seq::<Seq<char>>::empty());
            }
        }
        if albums.len() == 0 && years.len() == 0 && all_years.len() == 0 {
            return Err(
                if self.english {
                    owned("Select at least one album or year folder.")
                } else {
                    owned("Bitte mindestens ein Album oder einen Jahresordner auswählen.")
                },
            );
        }
        let req = DownloadRequest {
            base,
            api_key,
            target_dir: string_of(&target),
            albums,
            years,
            all_years,
            no_album_assets: copy_assets(&self.no_album_assets),
            all_assets: copy_assets(&self.all_assets),
            media_mode: self.media_mode,
            existing_mode: self.existing_mode,
            deduplicate: self.deduplicate,
            parallel_downloads: if self.parallel_downloads > 1 {
                self.parallel_downloads
            } else {
                1
            },
        };
        self.download_running = true;
        self.download_popup = true;
        self.download_current = 0;
        self.download_total = 0;
        self.download_file = owned("Download wird vorbereitet ...");
        self.download_downloaded = 0;
        self.download_skipped = 0;
        self.download_failed = 0;
        self.download_active = 0;
        self.download_album_current = 0;
        self.download_album_total = req.albums.len();
        self.download_album_name = String::new();
        self.progress = Progress { done: 0, total: 0 };
        self.status = owned("Download gestartet ...");
        Ok(req)
    }
}

/// The number of selected year folders.
fn count_selected_buckets(v: &Vec<YearBucket>) -> (n: usize)
    ensures
        n == selected_buckets(v@),
{
    let mut n: usize = 0;
    let mut i: usize = 0;
    while i < v.len()
        invariant
            i <= v.len(),
            n == selected_buckets(v@.take(i as int)),
            n <= i,
        decreases v.len() - i,
    {
        proof {
            assert(v@.take(i + 1).drop_last() =~= v@.take(i as int));
        }
        if v[i].selected {
            n = n + 1;
        }
        i = i + 1;
    }
    proof {
        assert(v@.take(v.len() as int) =~= v@);
    }
    n
}

/// Marks every year folder selected (`on`) or not.
fn set_buckets_selected(v: &mut Vec<YearBucket>, on: bool)
    ensures
        final(v).len() == old(v).len(),
        forall|i: int|
            0 <= i < final(v).len() ==> (#[trigger] final(v)[i]).selected == on && final(v)[i].year
                == old(v)[i].year && final(v)[i].count == old(v)[i].count && final(v)[i].total_size
                == old(v)[i].total_size,
{
    let mut i: usize = 0;
    while i < v.len()
        invariant
            i <= v.len(),
            v.len() == old(v).len(),
            forall|a: int|
                0 <= a < v.len() ==> (#[trigger] v[a]).year == old(v)[a].year && v[a].count == old(
                    v,
                )[a].count && v[a].total_size == old(v)[a].total_size && (a < i ==> v[a].selected
                    == on),
        decreases v.len() - i,
    {
        let b = YearBucket {
            year: v[i].year.clone(),
            count: v[i].count,
            total_size: v[i].total_size,
            selected: on,
        };
        v.set(i, b);
        i = i + 1;
    }
}

} // verus!
