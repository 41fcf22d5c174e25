//! Paged search listings of the server: where a response keeps its items,
//! which page comes next, when a listing ends, and what is kept of each page.

use vstd::prelude::*;
use crate::model::Asset;
use crate::naming::media_matches_spec;
use crate::state::ImmichApp;
use crate::text::{
    chars_of, concat3, decimal, digit_value, i64_text, int_text, is_digit, owned, push_str_chars, string_of,
    usize_text,
};
use crate::years::{asset_sizes, buckets_ok, year_totals_fit, years_ok};

verus! {

/// What a response names as its next page.
#[derive(Debug)]
pub enum PageToken {
    /// A JSON number: its value where it is an integer that fits in `i64`.
    Number(Option<i64>),
    /// A JSON string.
    Text(String),
    /// Any other JSON value.
    Other,
}

/// One level of a search response: its item list, if it has one, and its
/// next page, if it names one.
#[derive(Debug)]
pub struct SearchPage<T> {
    pub items: Option<T>,
    pub next_page: Option<PageToken>,
}

/// A search response: the level under `assets`, where the response has that
/// key, and the top level.
#[derive(Debug)]
pub struct SearchResponse<T> {
    pub assets: Option<SearchPage<T>>,
    pub top: SearchPage<T>,
}

/// The items and the next page of a search response: those under `assets`
/// where the response has that key, else those at its top level. A missing
/// item list is `None`, which stands for an empty list.
pub fn search_items_and_next<T>(response: SearchResponse<T>) -> (r: (Option<T>, Option<PageToken>))
    ensures
        r == (match response.assets {
            Some(level) => (level.items, level.next_page),
            None => (response.top.items, response.top.next_page),
        }),
{
    match response.assets {
        Some(level) => (level.items, level.next_page),
        None => (response.top.items, response.top.next_page),
    }
}

/// The value of a string of decimal digits.
pub open spec fn digits_value(s: Seq<char>) -> int
    decreases s.len(),
{
    if s.len() == 0 {
        0
    } else {
        digits_value(s.drop_last()) * 10 + digit_value(s.last())
    }
}

/// Whether every character is a decimal digit.
pub open spec fn all_digits(s: Seq<char>) -> bool {
    forall|i: int| 0 <= i < s.len() ==> is_digit(#[trigger] s[i])
}

/// What `str::parse::<i64>` gives: an optional `+` or `-` followed by at
/// least one decimal digit and nothing else, whose value fits in `i64`.
pub open spec fn parse_i64_spec(s: Seq<char>) -> Option<i64> {
    let negative = s.len() > 0 && s[0] == '-';
    let body = if s.len() > 0 && (s[0] == '-' || s[0] == '+') {
        s.drop_first()
    } else {
        s
    };
    let value = if negative {
        -digits_value(body)
    } else {
        digits_value(body)
    };
    if body.len() == 0 || !all_digits(body) || value < i64::MIN || value > i64::MAX {
        None
    } else {
        Some(value as i64)
    }
}

/// A value of decimal digits is never negative.
proof fn lemma_digits_value_nonneg(s: Seq<char>)
    requires
        all_digits(s),
    ensures
        digits_value(s) >= 0,
    decreases s.len(),
{
    if s.len() > 0 {
        assert(all_digits(s.drop_last())) by {
            assert forall|i: int| 0 <= i < s.drop_last().len() implies is_digit(
                #[trigger] s.drop_last()[i],
            ) by {
                assert(s.drop_last()[i] == s[i]);
            }
        }
        lemma_digits_value_nonneg(s.drop_last());
        assert(is_digit(s[s.len() - 1]));
    }
}

/// A string of decimal digits has at least the value of each of its
/// prefixes.
proof fn lemma_digits_value_prefix(s: Seq<char>, k: int)
    requires
        all_digits(s),
        0 <= k <= s.len(),
    ensures
        digits_value(s) >= digits_value(s.take(k)),
    decreases s.len(),
{
    if k < s.len() {
        let p = s.drop_last();
        assert(all_digits(p)) by {
            assert forall|i: int| 0 <= i < p.len() implies is_digit(#[trigger] p[i]) by {
                assert(p[i] == s[i]);
            }
        }
        lemma_digits_value_prefix(p, k);
        lemma_digits_value_nonneg(p);
        assert(p.take(k) =~= s.take(k));
        assert(is_digit(s[s.len() - 1]));
    } else {
        assert(s.take(k) =~= s);
    }
}

/// The value of the decimal digits of `v` from `start` on, where there is
/// at least one, they are all digits and the value is at most `limit`.
pub(crate) fn digits_up_to(v: &Vec<char>, start: usize, limit: u64) -> (r: Option<u64>)
    requires
        start <= v.len(),
    ensures
        ({
            let body = v@.subrange(start as int, v.len() as int);
            match r {
                Some(n) => body.len() > 0 && all_digits(body) && n == digits_value(body) && n
                    <= limit,
                None => body.len() == 0 || !all_digits(body) || digits_value(body) > limit,
            }
        }),
{
    let ghost body = v@.subrange(start as int, v.len() as int);
    if start == v.len() {
        return None;
    }
    let mut acc: u64 = 0;
    let mut i: usize = start;
    while i < v.len()
        invariant
            start <= i <= v.len(),
            body == v@.subrange(start as int, v.len() as int),
            all_digits(body.take(i - start)),
            acc == digits_value(body.take(i - start)),
            acc <= limit,
        decreases v.len() - i,
    {
        let c = v[i];
        if !('0' <= c && c <= '9') {
            proof {
                assert(body[i - start] == c);
            }
            return None;
        }
        let d: u64 = ((c as u32) - 48) as u64;
        let next: u128 = (acc as u128) * 10 + (d as u128);
        proof {
            assert(body.take(i - start + 1).drop_last() =~= body.take(i - start));
            assert(body.take(i - start + 1).last() == c);
            assert(all_digits(body.take(i - start + 1))) by {
                assert forall|j: int| 0 <= j < body.take(i - start + 1).len() implies is_digit(
                    #[trigger] body.take(i - start + 1)[j],
                ) by {
                    if j < i - start {
                        assert(body.take(i - start + 1)[j] == body.take(i - start)[j]);
                    }
                }
            }
            assert(next == digits_value(body.take(i - start + 1)));
        }
        if next > limit as u128 {
            proof {
                if all_digits(body) {
                    lemma_digits_value_prefix(body, i - start + 1);
                }
            }
            return None;
        }
        acc = next as u64;
        i = i + 1;
    }
    proof {
        assert(body.take(i - start) =~= body);
    }
    Some(acc)
}

/// `str::parse::<i64>` with its error dropped: an optional `+` or `-`,
/// then decimal digits whose value fits in `i64`.
fn parse_i64(s: &str) -> (r: Option<i64>)
    ensures
        r == parse_i64_spec(s@),
{
    let v = chars_of(s);
    let negative = v.len() > 0 && v[0] == '-';
    let signed = v.len() > 0 && (v[0] == '-' || v[0] == '+');
    let start: usize = if signed {
        1
    } else {
        0
    };
    proof {
        if signed {
            assert(v@.subrange(1, v.len() as int) =~= s@.drop_first());
        } else {
            assert(v@.subrange(0, v.len() as int) =~= s@);
        }
    }
    let limit: u64 = if negative {
        9223372036854775808
    } else {
        9223372036854775807
    };
    let r = digits_up_to(&v, start, limit);
    proof {
        let body = v@.subrange(start as int, v.len() as int);
        if all_digits(body) {
            lemma_digits_value_nonneg(body);
        }
    }
    match r {
        None => None,
        Some(n) => {
            if negative {
                if n == 9223372036854775808 {
                    Some(i64::MIN)
                } else {
                    Some(-(n as i64))
                }
            } else {
                Some(n as i64)
            }
        },
    }
}

/// The page that a next-page token names.
pub open spec fn next_page_spec(token: Option<PageToken>) -> Option<i64> {
    match token {
        Some(PageToken::Number(n)) => n,
        Some(PageToken::Text(s)) => parse_i64_spec(s@),
        _ => None,
    }
}

/// The page that a response names as the next one: a number as it is, a
/// string as the integer it spells, nothing else.
pub fn parse_next_page(token: Option<PageToken>) -> (r: Option<i64>)
    ensures
        r == next_page_spec(token),
{
    match token {
        Some(PageToken::Number(n)) => n,
        Some(PageToken::Text(s)) => parse_i64(s.as_str()),
        _ => None,
    }
}

/// The message with which a listing stops when it is sent to a page that
/// it has fetched before.
pub open spec fn repeated_page_message(page: i64) -> Seq<char> {
    "Seitennavigation wiederholt Seite "@ + int_text(page as int)
        + ". Abbruch zum Schutz vor einer Endlosschleife."@
}

/// Where a paged listing stands: the page to fetch next and the pages
/// fetched so far.
#[derive(Debug)]
pub struct PageCursor {
    pub page: i64,
    pub seen: Vec<i64>,
}

/// Whether no page occurs twice.
pub open spec fn pages_distinct(seen: Seq<i64>) -> bool {
    forall|i: int, j: int| 0 <= i < j < seen.len() ==> seen[i] != seen[j]
}

impl PageCursor {
    /// A listing that starts at page 1 and has fetched nothing.
    pub fn new() -> (c: PageCursor)
        ensures
            c.page == 1,
            c.seen@ == Seq::<i64>::empty(),
    {
        PageCursor { page: 1, seen: Vec::new() }
    }

    /// Registers the current page before it is fetched and gives its
    /// number; a page that was fetched before is refused with the message
    /// that stops the listing. No page is handed out twice.
    pub fn enter(&mut self) -> (r: Result<i64, String>)
        requires
            pages_distinct(old(self).seen@),
        ensures
            pages_distinct(final(self).seen@),
            final(self).page == old(self).page,
            old(self).seen@.contains(old(self).page) ==> {
                &&& final(self).seen@ == old(self).seen@
                &&& r matches Err(m) && m@ == repeated_page_message(old(self).page)
            },
            !old(self).seen@.contains(old(self).page) ==> {
                &&& final(self).seen@ == old(self).seen@.push(old(self).page)
                &&& r == Ok::<i64, String>(old(self).page)
            },
    {
        let mut i: usize = 0;
        while i < self.seen.len()
            invariant
                i <= self.seen.len(),
                pages_distinct(self.seen@),
                forall|j: int| 0 <= j < i ==> self.seen@[j] != self.page,
            decreases self.seen.len() - i,
        {
            if self.seen[i] == self.page {
                proof {
                    assert(self.seen@.contains(self.page));
                }
                let m = concat3(
                    "Seitennavigation wiederholt Seite ",
                    i64_text(self.page).as_str(),
                    ". Abbruch zum Schutz vor einer Endlosschleife.",
                );
                return Err(m);
            }
            i = i + 1;
        }
        let p = self.page;
        self.seen.push(p);
        Ok(p)
    }

    /// Moves on after a page, given the next page that its response names:
    /// the listing goes on where that is another page, and ends where there
    /// is none or it is the same page again.
    pub fn advance(&mut self, next: Option<i64>) -> (more: bool)
        ensures
            more == (next matches Some(n) && n != old(self).page),
            final(self).page == (if more {
                next->0
            } else {
                old(self).page
            }),
            final(self).seen@ == old(self).seen@,
    {
        match next {
            Some(n) => {
                if n == self.page {
                    false
                } else {
                    self.page = n;
                    true
                }
            },
            None => false,
        }
    }
}

/// The assets of a page that the media filter keeps, in order.
pub open spec fn matching(assets: Seq<Asset>, mode: crate::model::MediaMode) -> Seq<Asset>
    decreases assets.len(),
{
    if assets.len() == 0 {
        Seq::empty()
    } else if media_matches_spec(assets.last(), mode) {
        matching(assets.drop_last(), mode).push(assets.last())
    } else {
        matching(assets.drop_last(), mode)
    }
}

/// Whether an asset passes the media filter.
pub open spec fn passes(mode: crate::model::MediaMode) -> spec_fn(Asset) -> bool {
    |a: Asset| media_matches_spec(a, mode)
}

/// The media filter keeps exactly the assets of the wanted kind, in order:
/// every kept asset is one of the page's assets and of the kind the mode
/// asks for (an `IMAGE` for photos, a `VIDEO` for videos), and every asset
/// of that kind is kept.
pub proof fn lemma_matching_keeps_wanted_kind(assets: Seq<Asset>, mode: crate::model::MediaMode)
    ensures
        matching(assets, mode) == assets.filter(passes(mode)),
        forall|k: int|
            0 <= k < matching(assets, mode).len() ==> assets.contains(
                #[trigger] matching(assets, mode)[k],
            ),
        forall|k: int|
            0 <= k < matching(assets, mode).len() ==> match mode {
                crate::model::MediaMode::All => true,
                crate::model::MediaMode::Photos => (#[trigger] matching(assets, mode)[k]).asset_type@
                    == "IMAGE"@,
                crate::model::MediaMode::Videos => matching(assets, mode)[k].asset_type@
                    == "VIDEO"@,
            },
        forall|i: int| #![trigger assets[i]]
            0 <= i < assets.len() && match mode {
                crate::model::MediaMode::All => true,
                crate::model::MediaMode::Photos => assets[i].asset_type@ == "IMAGE"@,
                crate::model::MediaMode::Videos => assets[i].asset_type@ == "VIDEO"@,
            } ==> matching(assets, mode).contains(assets[i]),
    decreases assets.len(),
{
    reveal(Seq::filter);
    let r = matching(assets, mode);
    if assets.len() == 0 {
        assert(assets.filter(passes(mode)) =~= r);
    } else {
        let p = assets.drop_last();
        let x = assets.last();
        let rp = matching(p, mode);
        lemma_matching_keeps_wanted_kind(p, mode);
        assert(assets.filter(passes(mode)) == if media_matches_spec(x, mode) {
            p.filter(passes(mode)).push(x)
        } else {
            p.filter(passes(mode))
        });
        assert forall|k: int| 0 <= k < r.len() implies assets.contains(#[trigger] r[k]) by {
            if k < rp.len() {
                assert(r[k] == rp[k]);
                let i = choose|i: int| 0 <= i < p.len() && p[i] == rp[k];
                assert(assets[i] == p[i]);
            } else {
                assert(assets[assets.len() - 1] == x);
            }
        }
        assert forall|k: int| 0 <= k < r.len() implies match mode {
            crate::model::MediaMode::All => true,
            crate::model::MediaMode::Photos => (#[trigger] r[k]).asset_type@ == "IMAGE"@,
            crate::model::MediaMode::Videos => r[k].asset_type@ == "VIDEO"@,
        } by {
            if k < rp.len() {
                assert(r[k] == rp[k]);
            }
        }
        assert forall|i: int| #![trigger assets[i]]
            0 <= i < assets.len() && match mode {
                crate::model::MediaMode::All => true,
                crate::model::MediaMode::Photos => assets[i].asset_type@ == "IMAGE"@,
                crate::model::MediaMode::Videos => assets[i].asset_type@ == "VIDEO"@,
            } implies r.contains(assets[i]) by {
            if i < p.len() {
                assert(p[i] == assets[i]);
                let k = choose|k: int| 0 <= k < rp.len() && rp[k] == p[i];
                assert(r[k] == rp[k]);
            } else {
                assert(r[r.len() - 1] == x);
            }
        }
    }
}

/// Appends to `out` the assets that the media filter keeps, in order.
pub(crate) fn push_matching(out: &mut Vec<Asset>, assets: Vec<Asset>, mode: crate::model::MediaMode)
    ensures
        final(out)@ == old(out)@ + matching(assets@, mode),
{
    let ghost start = out@;
    let mut i: usize = 0;
    proof {
        assert(start + matching(assets@.take(0), mode) =~= start);
    }
    while i < assets.len()
        invariant
            i <= assets.len(),
            out@ == start + matching(assets@.take(i as int), mode),
        decreases assets.len() - i,
    {
        let a = assets[i].duplicate();
        proof {
            assert(assets@.take(i + 1).drop_last() =~= assets@.take(i as int));
        }
        if ImmichApp::media_matches(&a, mode) {
            out.push(a);
            proof {
                assert(out@ =~= start + matching(assets@.take(i + 1), mode));
            }
        }
        i = i + 1;
    }
    proof {
        assert(assets@.take(assets.len() as int) =~= assets@);
    }
}

/// The status line after a listing: the number of assets, a text, the
/// number of year folders and the closing words.
pub open spec fn loaded_status(assets: nat, what: Seq<char>, folders: nat) -> Seq<char> {
    decimal(assets) + what + decimal(folders) + " Jahresordner."@
}

/// The status line after a listing, built from its numbers.
fn loaded_status_text(assets: usize, what: &str, folders: usize) -> (out: String)
    ensures
        out@ == loaded_status(assets as nat, what@, folders as nat),
{
    let mut v: Vec<char> = Vec::new();
    push_str_chars(&mut v, usize_text(assets).as_str());
    push_str_chars(&mut v, what);
    push_str_chars(&mut v, usize_text(folders).as_str());
    push_str_chars(&mut v, " Jahresordner.");
    proof {
        assert(v@ =~= loaded_status(assets as nat, what@, folders as nat));
    }
    string_of(&v)
}

impl ImmichApp {
    /// Starts listing the assets that are in no album: the list and its
    /// year folders are emptied and the status says what is loading.
    pub fn begin_no_album_load(&mut self)
        ensures
            final(self).status@ == "Lade Fotos ohne Album nach Jahr ..."@,
            final(self).no_album_assets@.len() == 0,
            final(self).year_buckets@.len() == 0,
            *final(self) == (ImmichApp {
                no_album_assets: final(self).no_album_assets,
                year_buckets: final(self).year_buckets,
                status: final(self).status,
                ..*old(self)
            }),
    {
        self.no_album_assets = Vec::new();
        self.year_buckets = Vec::new();
        self.status = owned("Lade Fotos ohne Album nach Jahr ...");
    }

    /// Keeps the assets of one page of that listing that the media filter
    /// lets through.
    pub fn add_no_album_page(&mut self, assets: Vec<Asset>)
        ensures
            final(self).no_album_assets@ == old(self).no_album_assets@ + matching(
                assets@,
                old(self).media_mode,
            ),
            *final(self) == (ImmichApp {
                no_album_assets: final(self).no_album_assets,
                ..*old(self)
            }),
    {
        let mode = self.media_mode;
        push_matching(&mut self.no_album_assets, assets, mode);
    }

    /// Ends that listing: the year folders are built anew and the status
    /// gives the number of assets and of folders.
    pub fn finish_no_album_load(&mut self)
        requires
            year_totals_fit(old(self).no_album_assets@),
        ensures
            exists|ys: Seq<Seq<char>>|
                #[trigger] years_ok(old(self).no_album_assets@, ys) && buckets_ok(
                    final(self).year_buckets@,
                    ys,
                    asset_sizes(old(self).no_album_assets@),
                    old(self).year_buckets@,
                ),
            final(self).status@ == loaded_status(
                old(self).no_album_assets@.len(),
                " Fotos/Videos ohne Album geladen, gruppiert in "@,
                final(self).year_buckets@.len(),
            ),
            *final(self) == (ImmichApp {
                year_buckets: final(self).year_buckets,
                status: final(self).status,
                ..*old(self)
            }),
    {
        self.rebuild_year_buckets();
        self.status = loaded_status_text(
            self.no_album_assets.len(),
            " Fotos/Videos ohne Album geladen, gruppiert in ",
            self.year_buckets.len(),
        );
    }

    /// Starts listing all assets: the list and its year folders are emptied
    /// and the status says what is loading.
    pub fn begin_all_assets_load(&mut self)
        ensures
            final(self).status@ == "Lade alle Fotos nach Jahr ..."@,
            final(self).all_assets@.len() == 0,
            final(self).all_year_buckets@.len() == 0,
            *final(self) == (ImmichApp {
                all_assets: final(self).all_assets,
                all_year_buckets: final(self).all_year_buckets,
                status: final(self).status,
                ..*old(self)
            }),
    {
        self.all_assets = Vec::new();
        self.all_year_buckets = Vec::new();
        self.status = owned("Lade alle Fotos nach Jahr ...");
    }

    /// Keeps the assets of one page of that listing that the media filter
    /// lets through.
    pub fn add_all_assets_page(&mut self, assets: Vec<Asset>)
        ensures
            final(self).all_assets@ == old(self).all_assets@ + matching(
                assets@,
                old(self).media_mode,
            ),
            *final(self) == (ImmichApp { all_assets: final(self).all_assets, ..*old(self) }),
    {
        let mode = self.media_mode;
        push_matching(&mut self.all_assets, assets, mode);
    }

    /// Ends that listing: the year folders are built anew and the status
    /// gives the number of assets and of folders.
    pub fn finish_all_assets_load(&mut self)
        requires
            year_totals_fit(old(self).all_assets@),
        ensures
            exists|ys: Seq<Seq<char>>|
                #[trigger] years_ok(old(self).all_assets@, ys) && buckets_ok(
                    final(self).all_year_buckets@,
                    ys,
                    asset_sizes(old(self).all_assets@),
                    old(self).all_year_buckets@,
                ),
            final(self).status@ == loaded_status(
                old(self).all_assets@.len(),
                " Fotos/Videos insgesamt geladen, gruppiert in "@,
                final(self).all_year_buckets@.len(),
            ),
            *final(self) == (ImmichApp {
                all_year_buckets: final(self).all_year_buckets,
                status: final(self).status,
                ..*old(self)
            }),
    {
        self.rebuild_all_year_buckets();
        self.status = loaded_status_text(
            self.all_assets.len(),
            " Fotos/Videos insgesamt geladen, gruppiert in ",
            self.all_year_buckets.len(),
        );
    }
}

} // verus!
