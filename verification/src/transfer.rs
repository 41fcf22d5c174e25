//! The download queue: the jobs that a selection gives, how they are
//! grouped and announced, and the decisions taken for each file.

use vstd::prelude::*;
use crate::dedup::{dedup_spec, lemma_dedup_idempotent, lower_fold, named_jobs, valid_base_names};
use crate::events::DownloadEvent;
use crate::model::{Album, Asset, ConflictItem, DownloadJob, ExistingMode, MediaMode};
use crate::naming::{file_name_ok, media_matches_spec, sanitized};
use crate::paging::{lemma_matching_keeps_wanted_kind, matching};
use crate::state::ImmichApp;
use crate::paging::{all_digits, digits_up_to, digits_value};
use crate::text::{chars_of, concat2, concat3, eq_str, last_segment, owned, push_str_chars, string_of};
use crate::years::{years_and_sizes, years_ok};

verus! {

/// `job` downloads `asset` for the album named `name`, which is number
/// `position` of `total` selected albums: into the album's folder, under
/// the album's name, with no output name chosen yet.
pub open spec fn is_album_job(
    job: DownloadJob,
    asset: Asset,
    name: Seq<char>,
    position: usize,
    total: usize,
) -> bool {
    &&& job.asset == asset
    &&& job.folder_name@ == sanitized(name)
    &&& job.group_name@ == name
    &&& job.album_position == Some((position, total))
    &&& job.output_file_name@.len() == 0
}

/// `out` is `before` followed by one album job for each asset of `assets`.
pub open spec fn album_jobs_added(
    out: Seq<DownloadJob>,
    before: Seq<DownloadJob>,
    assets: Seq<Asset>,
    name: Seq<char>,
    position: usize,
    total: usize,
) -> bool {
    &&& out.len() == before.len() + assets.len()
    &&& forall|i: int| 0 <= i < before.len() ==> out[i] == before[i]
    &&& forall|k: int|
        0 <= k < assets.len() ==> is_album_job(
            #[trigger] out[before.len() + k],
            assets[k],
            name,
            position,
            total,
        )
}

/// The jobs that an album page adds are all of the wanted kind, each for
/// one of the page's assets, and every asset of the page of that kind gets
/// a job.
pub proof fn lemma_album_jobs_wanted(
    out: Seq<DownloadJob>,
    before: Seq<DownloadJob>,
    assets: Seq<Asset>,
    mode: MediaMode,
    name: Seq<char>,
    position: usize,
    total: usize,
)
    requires
        album_jobs_added(out, before, matching(assets, mode), name, position, total),
    ensures
        forall|k: int|
            before.len() <= k < out.len() ==> of_wanted_kind((#[trigger] out[k]).asset, mode)
                && assets.contains(out[k].asset),
        forall|i: int| #![trigger assets[i]]
            0 <= i < assets.len() && of_wanted_kind(assets[i], mode) ==> exists|k: int|
                before.len() <= k < out.len() && (#[trigger] out[k]).asset == assets[i],
{
    let m = matching(assets, mode);
    lemma_matching_keeps_wanted_kind(assets, mode);
    assert forall|k: int| before.len() <= k < out.len() implies of_wanted_kind(
        (#[trigger] out[k]).asset,
        mode,
    ) && assets.contains(out[k].asset) by {
        let j = k - before.len();
        assert(is_album_job(out[before.len() + j], m[j], name, position, total));
        assert(before.len() + j == k);
        assert(assets.contains(m[j]));
    }
    assert forall|i: int| #![trigger assets[i]] 0 <= i < assets.len() && of_wanted_kind(assets[i], mode) implies exists|k: int|
        before.len() <= k < out.len() && (#[trigger] out[k]).asset == assets[i] by {
        assert(m.contains(assets[i]));
        let j = choose|j: int| 0 <= j < m.len() && m[j] == assets[i];
        assert(is_album_job(out[before.len() + j], m[j], name, position, total));
    }
}

/// Appends the jobs for one page of an album's assets: one for each asset
/// that the media filter keeps, in order. The album is number `index + 1`
/// of `total`.
pub fn add_album_jobs(
    jobs: &mut Vec<DownloadJob>,
    album: &Album,
    index: usize,
    total: usize,
    assets: Vec<Asset>,
    mode: MediaMode,
)
    requires
        index < total,
    ensures
        album_jobs_added(
            final(jobs)@,
            old(jobs)@,
            matching(assets@, mode),
            album.album_name@,
            (index + 1) as usize,
            total,
        ),
{
    let folder = ImmichApp::sanitize_file_name(album.album_name.as_str());
    let position: usize = index + 1;
    let ghost before = jobs@;
    let mut kept: Vec<Asset> = Vec::new();
    crate::paging::push_matching(&mut kept, assets, mode);
    assert(kept@ =~= matching(assets@, mode));
    let mut i: usize = 0;
    while i < kept.len()
        invariant
            i <= kept.len(),
            folder@ == sanitized(album.album_name@),
            position == index + 1,
            album_jobs_added(jobs@, before, kept@.take(i as int), album.album_name@, position, total),
        decreases kept.len() - i,
    {
        let job = DownloadJob {
            asset: kept[i].duplicate(),
            folder_name: folder.clone(),
            group_name: album.album_name.clone(),
            album_position: Some((position, total)),
            output_file_name: String::new(),
        };
        jobs.push(job);
        proof {
            let t = kept@.take(i + 1);
            assert forall|k: int| 0 <= k < t.len() implies is_album_job(
                #[trigger] jobs@[before.len() + k],
                t[k],
                album.album_name@,
                position,
                total,
            ) by {
                if k < i {
                    assert(t[k] == kept@.take(i as int)[k]);
                }
            }
        }
        i = i + 1;
    }
    proof {
        assert(kept@.take(kept.len() as int) =~= kept@);
    }
}

/// Which list a year folder belongs to.
#[derive(PartialEq, Eq, Structural, Clone, Copy, Debug)]
pub enum YearSource {
    /// The assets that are in no album.
    NoAlbum,
    /// All assets.
    AllAssets,
}

/// The folder, below the destination, of a year folder's parent.
pub open spec fn year_folder_prefix(source: YearSource) -> Seq<char> {
    match source {
        YearSource::NoAlbum => "Ohne Album\\"@,
        YearSource::AllAssets => "Alle Fotos nach Jahr\\"@,
    }
}

/// The words in front of the year in a year folder's group name.
pub open spec fn year_group_prefix(source: YearSource) -> Seq<char> {
    match source {
        YearSource::NoAlbum => "Ohne Album "@,
        YearSource::AllAssets => "Alle Fotos "@,
    }
}

/// `job` downloads `asset` into the folder of year `y` of `source`, with no
/// album position and no output name chosen yet.
pub open spec fn is_year_job(job: DownloadJob, asset: Asset, y: Seq<char>, source: YearSource) -> bool {
    &&& job.asset == asset
    &&& job.folder_name@ == year_folder_prefix(source) + y
    &&& job.group_name@ == year_group_prefix(source) + y
    &&& job.album_position is None
    &&& job.output_file_name@.len() == 0
}

/// The assets of year `y` that the media filter keeps, in order, where
/// `ys` are the assets' years.
pub open spec fn assets_of_year(
    assets: Seq<Asset>,
    ys: Seq<Seq<char>>,
    mode: MediaMode,
    y: Seq<char>,
) -> Seq<Asset>
    decreases assets.len(),
{
    if assets.len() == 0 {
        Seq::empty()
    } else {
        let rest = assets_of_year(assets.drop_last(), ys.drop_last(), mode, y);
        if ys.last() == y && media_matches_spec(assets.last(), mode) {
            rest.push(assets.last())
        } else {
            rest
        }
    }
}

/// The files that the selected years give, year by year in the order of
/// the selection: each asset with its year.
pub open spec fn year_plan(
    years: Seq<Seq<char>>,
    assets: Seq<Asset>,
    ys: Seq<Seq<char>>,
    mode: MediaMode,
) -> Seq<(Asset, Seq<char>)>
    decreases years.len(),
{
    if years.len() == 0 {
        Seq::empty()
    } else {
        let y = years.last();
        year_plan(years.drop_last(), assets, ys, mode) + assets_of_year(assets, ys, mode, y).map_values(
            |a: Asset| (a, y),
        )
    }
}

/// The asset is of the kind the media mode asks for: an `IMAGE` for
/// photos, a `VIDEO` for videos, anything for all media.
pub open spec fn of_wanted_kind(asset: Asset, mode: MediaMode) -> bool {
    match mode {
        MediaMode::All => true,
        MediaMode::Photos => asset.asset_type@ == "IMAGE"@,
        MediaMode::Videos => asset.asset_type@ == "VIDEO"@,
    }
}

/// Some asset of the year `y` and of the wanted kind is `a`.
pub open spec fn of_year_and_kind(
    assets: Seq<Asset>,
    ys: Seq<Seq<char>>,
    mode: MediaMode,
    y: Seq<char>,
    a: Asset,
) -> bool {
    exists|i: int|
        0 <= i < assets.len() && #[trigger] ys[i] == y && of_wanted_kind(assets[i], mode)
            && assets[i] == a
}

/// A year folder takes exactly the assets of its year that are of the
/// wanted kind: every asset it takes has that year and kind, and every
/// asset with that year and kind is taken.
pub proof fn lemma_year_takes_its_assets(
    assets: Seq<Asset>,
    ys: Seq<Seq<char>>,
    mode: MediaMode,
    y: Seq<char>,
)
    requires
        ys.len() == assets.len(),
    ensures
        forall|k: int|
            0 <= k < assets_of_year(assets, ys, mode, y).len() ==> of_year_and_kind(
                assets,
                ys,
                mode,
                y,
                #[trigger] assets_of_year(assets, ys, mode, y)[k],
            ),
        forall|k: int|
            0 <= k < assets_of_year(assets, ys, mode, y).len() ==> of_wanted_kind(
                #[trigger] assets_of_year(assets, ys, mode, y)[k],
                mode,
            ),
        forall|i: int| #![trigger assets[i]]
            0 <= i < assets.len() && ys[i] == y && of_wanted_kind(assets[i], mode)
                ==> assets_of_year(assets, ys, mode, y).contains(assets[i]),
    decreases assets.len(),
{
    let r = assets_of_year(assets, ys, mode, y);
    if assets.len() > 0 {
        let pa = assets.drop_last();
        let py = ys.drop_last();
        let rp = assets_of_year(pa, py, mode, y);
        lemma_year_takes_its_assets(pa, py, mode, y);
        assert forall|k: int| 0 <= k < r.len() implies of_year_and_kind(assets, ys, mode, y, #[trigger] r[k])
            && of_wanted_kind(r[k], mode) by {
            if k < rp.len() {
                assert(r[k] == rp[k]);
                assert(of_year_and_kind(pa, py, mode, y, rp[k]));
                let i = choose|i: int|
                    0 <= i < pa.len() && #[trigger] py[i] == y && of_wanted_kind(pa[i], mode)
                        && pa[i] == rp[k];
                assert(assets[i] == pa[i] && ys[i] == py[i]);
            } else {
                let l = assets.len() - 1;
                assert(assets[l] == assets.last() && ys[l] == ys.last());
                assert(r[k] == assets.last());
            }
        }
        assert forall|i: int| #![trigger assets[i]]
            0 <= i < assets.len() && ys[i] == y && of_wanted_kind(assets[i], mode) implies r.contains(
            assets[i],
        ) by {
            if i < pa.len() {
                assert(pa[i] == assets[i] && py[i] == ys[i]);
                let k = choose|k: int| 0 <= k < rp.len() && rp[k] == pa[i];
                assert(r[k] == rp[k]);
            } else {
                assert(r[r.len() - 1] == assets.last());
            }
        }
    }
}

/// The selected year folders take only assets of the wanted kind, each
/// under one of the selected years that is its own year.
pub proof fn lemma_year_plan_wanted(
    years: Seq<Seq<char>>,
    assets: Seq<Asset>,
    ys: Seq<Seq<char>>,
    mode: MediaMode,
)
    requires
        ys.len() == assets.len(),
    ensures
        forall|k: int|
            0 <= k < year_plan(years, assets, ys, mode).len() ==> {
                let e = #[trigger] year_plan(years, assets, ys, mode)[k];
                &&& of_wanted_kind(e.0, mode)
                &&& years.contains(e.1)
                &&& of_year_and_kind(assets, ys, mode, e.1, e.0)
            },
    decreases years.len(),
{
    if years.len() > 0 {
        let py = years.drop_last();
        let y = years.last();
        lemma_year_plan_wanted(py, assets, ys, mode);
        lemma_year_takes_its_assets(assets, ys, mode, y);
        let before = year_plan(py, assets, ys, mode);
        let more = assets_of_year(assets, ys, mode, y).map_values(|a: Asset| (a, y));
        let all = year_plan(years, assets, ys, mode);
        assert(all == before + more);
        assert forall|k: int| 0 <= k < all.len() implies {
            let e = #[trigger] all[k];
            &&& of_wanted_kind(e.0, mode)
            &&& years.contains(e.1)
            &&& of_year_and_kind(assets, ys, mode, e.1, e.0)
        } by {
            if k < before.len() {
                assert(all[k] == before[k]);
                let j = choose|j: int| 0 <= j < py.len() && py[j] == before[k].1;
                assert(years[j] == py[j]);
            } else {
                let m = k - before.len();
                assert(all[k] == more[m]);
                assert(more[m] == (assets_of_year(assets, ys, mode, y)[m], y));
                assert(years[years.len() - 1] == y);
            }
        }
    }
}

/// `out` is `before` followed by one year job for each entry of `plan`.
pub open spec fn year_jobs_added(
    out: Seq<DownloadJob>,
    before: Seq<DownloadJob>,
    plan: Seq<(Asset, Seq<char>)>,
    source: YearSource,
) -> bool {
    &&& out.len() == before.len() + plan.len()
    &&& forall|i: int| 0 <= i < before.len() ==> out[i] == before[i]
    &&& forall|k: int|
        0 <= k < plan.len() ==> is_year_job(
            #[trigger] out[before.len() + k],
            plan[k].0,
            plan[k].1,
            source,
        )
}

/// The jobs that selected year folders add are all of the wanted kind,
/// each in the folder of a selected year that is its asset's year.
pub proof fn lemma_year_jobs_wanted(
    out: Seq<DownloadJob>,
    before: Seq<DownloadJob>,
    years: Seq<Seq<char>>,
    assets: Seq<Asset>,
    ys: Seq<Seq<char>>,
    mode: MediaMode,
    source: YearSource,
)
    requires
        years_ok(assets, ys),
        year_jobs_added(out, before, year_plan(years, assets, ys, mode), source),
    ensures
        forall|k: int|
            before.len() <= k < out.len() ==> of_wanted_kind((#[trigger] out[k]).asset, mode)
                && exists|y: Seq<char>|
                years.contains(y) && out[k].folder_name@ == year_folder_prefix(source) + y
                    && of_year_and_kind(assets, ys, mode, y, out[k].asset),
{
    let plan = year_plan(years, assets, ys, mode);
    lemma_year_plan_wanted(years, assets, ys, mode);
    assert forall|k: int| before.len() <= k < out.len() implies of_wanted_kind(
        (#[trigger] out[k]).asset,
        mode,
    ) && exists|y: Seq<char>|
        years.contains(y) && out[k].folder_name@ == year_folder_prefix(source) + y
            && of_year_and_kind(assets, ys, mode, y, out[k].asset) by {
        let m = k - before.len();
        assert(is_year_job(out[before.len() + m], plan[m].0, plan[m].1, source));
        assert(before.len() + m == k);
        let e = plan[m];
        assert(of_wanted_kind(e.0, mode) && years.contains(e.1) && of_year_and_kind(assets, ys, mode, e.1, e.0));
    }
}

/// Appends the jobs for the selected year folders of one list: for each
/// selected year in turn, the assets of that year that the media filter
/// keeps, in order.
pub fn add_year_jobs(
    jobs: &mut Vec<DownloadJob>,
    years: &Vec<String>,
    assets: &Vec<Asset>,
    mode: MediaMode,
    source: YearSource,
)
    ensures
        exists|ys: Seq<Seq<char>>|
            #[trigger] years_ok(assets@, ys) && year_jobs_added(
                final(jobs)@,
                old(jobs)@,
                year_plan(years@.map_values(|s: String| s@), assets@, ys, mode),
                source,
            ),
{
    let ghost before = jobs@;
    let (ays, _sizes) = years_and_sizes(assets);
    let ghost ys = ays@.map_values(|s: String| s@);
    let ghost sel = years@.map_values(|s: String| s@);
    let folder_prefix = match source {
        YearSource::NoAlbum => "Ohne Album\\",
        YearSource::AllAssets => "Alle Fotos nach Jahr\\",
    };
    let group_prefix = match source {
        YearSource::NoAlbum => "Ohne Album ",
        YearSource::AllAssets => "Alle Fotos ",
    };
    proof {
        reveal_strlit("Ohne Album\\");
        reveal_strlit("Alle Fotos nach Jahr\\");
        reveal_strlit("Ohne Album ");
        reveal_strlit("Alle Fotos ");
        assert(folder_prefix@ == year_folder_prefix(source));
        assert(group_prefix@ == year_group_prefix(source));
        assert(year_plan(sel.take(0), assets@, ys, mode) =~= Seq::<(Asset, Seq<char>)>::empty());
    }
    let mut yi: usize = 0;
    while yi < years.len()
        invariant
            yi <= years.len(),
            sel == years@.map_values(|s: String| s@),
            ys == ays@.map_values(|s: String| s@),
            years_ok(assets@, ys),
            folder_prefix@ == year_folder_prefix(source),
            group_prefix@ == year_group_prefix(source),
            year_jobs_added(jobs@, before, year_plan(sel.take(yi as int), assets@, ys, mode), source),
        decreases years.len() - yi,
    {
        let y = &years[yi];
        let folder = concat2(folder_prefix, y.as_str());
        let group = concat2(group_prefix, y.as_str());
        let ghost done = year_plan(sel.take(yi as int), assets@, ys, mode);
        proof {
            assert(y@ == sel[yi as int]);
            assert(assets_of_year(assets@.take(0), ys.take(0), mode, y@) =~= Seq::<Asset>::empty());
            assert(done + assets_of_year(assets@.take(0), ys.take(0), mode, y@).map_values(
                |a: Asset| (a, y@),
            ) =~= done);
        }
        let mut ai: usize = 0;
        while ai < assets.len()
            invariant
                ai <= assets.len(),
                yi < years.len(),
                y@ == sel[yi as int],
                ys == ays@.map_values(|s: String| s@),
                ays.len() == assets.len(),
                folder@ == year_folder_prefix(source) + y@,
                group@ == year_group_prefix(source) + y@,
                done == year_plan(sel.take(yi as int), assets@, ys, mode),
                year_jobs_added(
                    jobs@,
                    before,
                    done + assets_of_year(assets@.take(ai as int), ys.take(ai as int), mode, y@).map_values(
                        |a: Asset| (a, y@),
                    ),
                    source,
                ),
            decreases assets.len() - ai,
        {
            let ghost prev = assets_of_year(assets@.take(ai as int), ys.take(ai as int), mode, y@);
            proof {
                assert(assets@.take(ai + 1).drop_last() =~= assets@.take(ai as int));
                assert(ys.take(ai + 1).drop_last() =~= ys.take(ai as int));
                assert(ys.take(ai + 1).last() == ays@[ai as int]@);
            }
            if ays[ai] == *y && ImmichApp::media_matches(&assets[ai], mode) {
                let job = DownloadJob {
                    asset: assets[ai].duplicate(),
                    folder_name: folder.clone(),
                    group_name: group.clone(),
                    album_position: None,
                    output_file_name: String::new(),
                };
                let ghost old_jobs = jobs@;
                jobs.push(job);
                proof {
                    let cur = assets_of_year(assets@.take(ai + 1), ys.take(ai + 1), mode, y@);
                    assert(cur =~= prev.push(assets@[ai as int]));
                    let p0 = done + prev.map_values(|a: Asset| (a, y@));
                    let p1 = done + cur.map_values(|a: Asset| (a, y@));
                    assert(p1 =~= p0.push((assets@[ai as int], y@)));
                    assert forall|k: int| 0 <= k < p1.len() implies is_year_job(
                        #[trigger] jobs@[before.len() + k],
                        p1[k].0,
                        p1[k].1,
                        source,
                    ) by {
                        if k < p0.len() {
                            assert(jobs@[before.len() + k] == old_jobs[before.len() + k]);
                        }
                    }
                }
            } else {
                proof {
                    let cur = assets_of_year(assets@.take(ai + 1), ys.take(ai + 1), mode, y@);
                    assert(cur =~= prev);
                }
            }
            ai = ai + 1;
        }
        proof {
            assert(assets@.take(assets.len() as int) =~= assets@);
            assert(ys.take(assets.len() as int) =~= ys);
            assert(sel.take(yi + 1).drop_last() =~= sel.take(yi as int));
            assert(sel.take(yi + 1).last() == y@);
        }
        yi = yi + 1;
    }
    proof {
        assert(sel.take(years.len() as int) =~= sel);
    }
}

/// The queue that a list of jobs gives: repeated asset-and-folder entries
/// dropped (twice where the user asked for de-duplication; see
/// `lemma_queue_ignores_option`).
pub open spec fn queue_spec(jobs: Seq<DownloadJob>, deduplicate: bool) -> Seq<DownloadJob> {
    dedup_spec(
        if deduplicate {
            dedup_spec(jobs)
        } else {
            jobs
        },
    )
}

/// The queue does not depend on the user's de-duplication option: the
/// queue is always free of repeated asset-and-folder entries, and
/// de-duplicating once more changes nothing.
pub proof fn lemma_queue_ignores_option(jobs: Seq<DownloadJob>)
    ensures
        queue_spec(jobs, true) == queue_spec(jobs, false),
{
    lemma_dedup_idempotent(lower_fold(), jobs);
}

/// `out` is the queue of `jobs`, each with the output file name that naming
/// gives it, for some choice of the platform's file names.
pub open spec fn queue_named(out: Seq<DownloadJob>, jobs: Seq<DownloadJob>, deduplicate: bool) -> bool {
    exists|bases: Seq<Seq<char>>|
        #[trigger] valid_base_names(queue_spec(jobs, deduplicate), bases) && named_jobs(
            out,
            queue_spec(jobs, deduplicate),
            bases,
        )
}

/// Turns the collected jobs into the download queue: de-duplicated where
/// the user asked for it, always free of repeated asset-and-folder entries
/// and of clashing file names; an empty queue is refused.
pub fn finalize_jobs(jobs: Vec<DownloadJob>, deduplicate: bool) -> (r: Result<Vec<DownloadJob>, String>)
    ensures
        r is Err <==> queue_spec(jobs@, deduplicate).len() == 0,
        r matches Err(m) ==> m@ == "Die Auswahl enthält keine passenden Dateien."@,
        r matches Ok(out) ==> queue_named(out@, jobs@, deduplicate),
{
    let pre = if deduplicate {
        ImmichApp::deduplicate_jobs(jobs)
    } else {
        jobs
    };
    let out = ImmichApp::deduplicate_queue_jobs(pre);
    if out.len() == 0 {
        return Err(owned("Die Auswahl enthält keine passenden Dateien."));
    }
    Ok(out)
}

/// The jobs of one group, in queue order.
#[derive(Debug)]
pub struct JobGroup {
    pub name: String,
    pub jobs: Vec<DownloadJob>,
}

/// The group names of the jobs, each once, in the order of first
/// appearance.
pub open spec fn group_order(jobs: Seq<DownloadJob>) -> Seq<Seq<char>>
    decreases jobs.len(),
{
    if jobs.len() == 0 {
        Seq::empty()
    } else {
        let o = group_order(jobs.drop_last());
        if o.contains(jobs.last().group_name@) {
            o
        } else {
            o.push(jobs.last().group_name@)
        }
    }
}

/// The jobs of the group `name`, in order.
pub open spec fn in_group(jobs: Seq<DownloadJob>, name: Seq<char>) -> Seq<DownloadJob>
    decreases jobs.len(),
{
    if jobs.len() == 0 {
        Seq::empty()
    } else if jobs.last().group_name@ == name {
        in_group(jobs.drop_last(), name).push(jobs.last())
    } else {
        in_group(jobs.drop_last(), name)
    }
}

/// `groups` are the groups of `jobs`: one per group name, in the order of
/// first appearance, each with its jobs in order.
pub open spec fn grouped(groups: Seq<JobGroup>, jobs: Seq<DownloadJob>) -> bool {
    &&& groups.len() == group_order(jobs).len()
    &&& forall|k: int|
        0 <= k < groups.len() ==> (#[trigger] groups[k]).name@ == group_order(jobs)[k]
            && groups[k].jobs@ == in_group(jobs, group_order(jobs)[k])
}

/// The names of a list of strings.
pub open spec fn string_views(v: Seq<String>) -> Seq<Seq<char>> {
    v.map_values(|s: String| s@)
}

/// Whether some string of `names` equals `name`.
fn contains_name(names: &Vec<String>, name: &String) -> (b: bool)
    ensures
        b == string_views(names@).contains(name@),
{
    let mut i: usize = 0;
    while i < names.len()
        invariant
            i <= names.len(),
            forall|j: int| 0 <= j < i ==> names@[j]@ != name@,
        decreases names.len() - i,
    {
        if names[i] == *name {
            proof {
                assert(string_views(names@)[i as int] == name@);
            }
            return true;
        }
        i = i + 1;
    }
    proof {
        if string_views(names@).contains(name@) {
            let j = choose|j: int| 0 <= j < names.len() && string_views(names@)[j] == name@;
            assert(names@[j]@ == name@);
        }
    }
    false
}

/// The jobs of the group `name`, copied in order.
fn jobs_of_group(jobs: &Vec<DownloadJob>, name: &String) -> (out: Vec<DownloadJob>)
    ensures
        out@ == in_group(jobs@, name@),
{
    let mut out: Vec<DownloadJob> = Vec::new();
    let mut i: usize = 0;
    while i < jobs.len()
        invariant
            i <= jobs.len(),
            out@ == in_group(jobs@.take(i as int), name@),
        decreases jobs.len() - i,
    {
        proof {
            assert(jobs@.take(i + 1).drop_last() =~= jobs@.take(i as int));
        }
        if jobs[i].group_name == *name {
            out.push(jobs[i].duplicate());
        }
        i = i + 1;
    }
    proof {
        assert(jobs@.take(jobs.len() as int) =~= jobs@);
    }
    out
}

/// Splits the queue into its groups (an album, or a year folder): one per
/// group name in the order in which the names first appear, each holding
/// its jobs in queue order.
pub fn group_jobs(jobs: &Vec<DownloadJob>) -> (groups: Vec<JobGroup>)
    ensures
        grouped(groups@, jobs@),
{
    let mut names: Vec<String> = Vec::new();
    let mut i: usize = 0;
    while i < jobs.len()
        invariant
            i <= jobs.len(),
            string_views(names@) == group_order(jobs@.take(i as int)),
        decreases jobs.len() - i,
    {
        proof {
            assert(jobs@.take(i + 1).drop_last() =~= jobs@.take(i as int));
        }
        if !contains_name(&names, &jobs[i].group_name) {
            let ghost before = names@;
            names.push(jobs[i].group_name.clone());
            proof {
                assert(string_views(names@) =~= string_views(before).push(jobs@[i as int].group_name@));
            }
        }
        i = i + 1;
    }
    proof {
        assert(jobs@.take(jobs.len() as int) =~= jobs@);
    }
    let mut groups: Vec<JobGroup> = Vec::new();
    let mut k: usize = 0;
    while k < names.len()
        invariant
            k <= names.len(),
            string_views(names@) == group_order(jobs@),
            groups.len() == k,
            forall|g: int|
                0 <= g < k ==> (#[trigger] groups@[g]).name@ == group_order(jobs@)[g]
                    && groups@[g].jobs@ == in_group(jobs@, group_order(jobs@)[g]),
        decreases names.len() - k,
    {
        let members = jobs_of_group(jobs, &names[k]);
        proof {
            assert(names@[k as int]@ == string_views(names@)[k as int]);
        }
        groups.push(JobGroup { name: names[k].clone(), jobs: members });
        k = k + 1;
    }
    groups
}

/// The number of jobs in the groups `names`.
pub open spec fn jobs_in_groups(jobs: Seq<DownloadJob>, names: Seq<Seq<char>>) -> nat
    decreases names.len(),
{
    if names.len() == 0 {
        0
    } else {
        jobs_in_groups(jobs, names.drop_last()) + in_group(jobs, names.last()).len()
    }
}

/// Whether no name occurs twice.
pub open spec fn names_distinct(names: Seq<Seq<char>>) -> bool {
    forall|i: int, j: int| 0 <= i < j < names.len() ==> names[i] != names[j]
}

/// Adding a job adds one to the count of the groups exactly when its group
/// is among them.
proof fn lemma_jobs_in_groups_push(jobs: Seq<DownloadJob>, job: DownloadJob, names: Seq<Seq<char>>)
    requires
        names_distinct(names),
    ensures
        jobs_in_groups(jobs.push(job), names) == jobs_in_groups(jobs, names) + (if names.contains(
            job.group_name@,
        ) {
            1int
        } else {
            0int
        }),
    decreases names.len(),
{
    let j2 = jobs.push(job);
    assert(j2.drop_last() =~= jobs);
    if names.len() > 0 {
        let init = names.drop_last();
        assert(names_distinct(init));
        lemma_jobs_in_groups_push(jobs, job, init);
        if names.contains(job.group_name@) && !init.contains(job.group_name@) {
            assert(names.last() == job.group_name@) by {
                let i = choose|i: int| 0 <= i < names.len() && names[i] == job.group_name@;
                if i < names.len() - 1 {
                    assert(init[i] == names[i]);
                }
            }
        }
        if init.contains(job.group_name@) {
            let i = choose|i: int| 0 <= i < init.len() && init[i] == job.group_name@;
            assert(names[i] == init[i]);
            assert(names.last() != job.group_name@);
        }
        if names.contains(job.group_name@) {
        } else {
            assert(!init.contains(job.group_name@)) by {
                if init.contains(job.group_name@) {
                    let i = choose|i: int| 0 <= i < init.len() && init[i] == job.group_name@;
                    assert(names[i] == init[i]);
                }
            }
            assert(names.last() != job.group_name@);
        }
    }
}

/// The groups' names are distinct and hold the name of every job; a name
/// outside them has no jobs.
proof fn lemma_group_order(jobs: Seq<DownloadJob>, name: Seq<char>)
    ensures
        names_distinct(group_order(jobs)),
        !group_order(jobs).contains(name) ==> in_group(jobs, name).len() == 0,
        forall|i: int| 0 <= i < jobs.len() ==> group_order(jobs).contains(#[trigger] jobs[i].group_name@),
    decreases jobs.len(),
{
    if jobs.len() > 0 {
        let init = jobs.drop_last();
        lemma_group_order(init, name);
        let o = group_order(init);
        assert forall|i: int| 0 <= i < jobs.len() implies group_order(jobs).contains(
            #[trigger] jobs[i].group_name@,
        ) by {
            if i < jobs.len() - 1 {
                assert(jobs[i] == init[i]);
                assert(o.contains(init[i].group_name@));
                let j = choose|j: int| 0 <= j < o.len() && o[j] == init[i].group_name@;
                assert(group_order(jobs)[j] == o[j]);
            } else {
                if !o.contains(jobs.last().group_name@) {
                    assert(group_order(jobs)[o.len() as int] == jobs.last().group_name@);
                }
            }
        }
        if !group_order(jobs).contains(name) {
            assert(!o.contains(name)) by {
                if o.contains(name) {
                    let j = choose|j: int| 0 <= j < o.len() && o[j] == name;
                    assert(group_order(jobs)[j] == o[j]);
                }
            }
            if jobs.last().group_name@ == name {
                assert(group_order(jobs).contains(jobs[jobs.len() - 1].group_name@));
            }
        }
    }
}

/// Grouping the queue loses and repeats no job: the groups have distinct
/// names, every job's group is among them, and together they hold as many
/// jobs as the queue.
pub proof fn lemma_groups_cover_queue(jobs: Seq<DownloadJob>)
    ensures
        names_distinct(group_order(jobs)),
        forall|i: int| 0 <= i < jobs.len() ==> group_order(jobs).contains(#[trigger] jobs[i].group_name@),
        jobs_in_groups(jobs, group_order(jobs)) == jobs.len(),
    decreases jobs.len(),
{
    lemma_group_order(jobs, Seq::empty());
    if jobs.len() > 0 {
        let init = jobs.drop_last();
        let job = jobs.last();
        lemma_groups_cover_queue(init);
        lemma_group_order(init, job.group_name@);
        let o = group_order(init);
        assert(init.push(job) =~= jobs);
        lemma_jobs_in_groups_push(init, job, o);
        if !o.contains(job.group_name@) {
            let o2 = o.push(job.group_name@);
            assert(o2.drop_last() =~= o);
            assert(in_group(jobs, job.group_name@) =~= in_group(init, job.group_name@).push(job));
        }
    }
}

/// What is announced when the download of a group begins: the album's
/// position where its jobs come from an album, else the year folder.
pub fn group_announcement(group: &JobGroup) -> (e: DownloadEvent)
    ensures
        (group.jobs@.len() > 0 && group.jobs@[0].album_position is Some) ==> (e matches DownloadEvent::AlbumProgress {
            current,
            total,
            album_name,
        } && current == (group.jobs@[0].album_position->0).0 && total
            == (group.jobs@[0].album_position->0).1 && album_name@ == group.name@),
        !(group.jobs@.len() > 0 && group.jobs@[0].album_position is Some) ==> (e matches DownloadEvent::Preparing(
            m,
        ) && m@ == "Jahresordner: "@ + group.name@),
{
    if group.jobs.len() > 0 {
        match group.jobs[0].album_position {
            Some((current, total)) => {
                return DownloadEvent::AlbumProgress {
                    current,
                    total,
                    album_name: group.name.clone(),
                };
            },
            None => {},
        }
    }
    DownloadEvent::Preparing(concat2("Jahresordner: ", group.name.as_str()))
}

/// How many workers download a group: as many as allowed, but no more than
/// there are jobs, and at least one.
pub fn worker_count(limit: usize, jobs: usize) -> (n: usize)
    ensures
        n == if (if limit < jobs { limit } else { jobs }) == 0 {
            1
        } else if limit < jobs {
            limit
        } else {
            jobs
        },
{
    let m = if limit < jobs {
        limit
    } else {
        jobs
    };
    if m == 0 {
        1
    } else {
        m
    }
}

/// The name the file of a job gets: its chosen output name, else the name
/// of its asset.
pub fn job_file_name(job: &DownloadJob) -> (out: String)
    ensures
        job.output_file_name@.len() > 0 ==> out@ == job.output_file_name@,
        job.output_file_name@.len() == 0 ==> file_name_ok(job.asset, out@),
{
    if job.output_file_name.as_str().is_empty() {
        ImmichApp::asset_file_name(&job.asset)
    } else {
        job.output_file_name.clone()
    }
}

/// The name under which a conflicting file lies in its folder: the job's
/// output name where it has one, else the sanitized name of its asset.
pub fn conflict_file_name(job: &DownloadJob) -> (out: String)
    ensures
        job.output_file_name@.len() > 0 ==> out@ == job.output_file_name@,
        job.output_file_name@.len() == 0 ==> exists|n: Seq<char>|
            file_name_ok(job.asset, n) && out@ == sanitized(n),
{
    if job.output_file_name.as_str().is_empty() {
        let n = ImmichApp::asset_file_name(&job.asset);
        ImmichApp::sanitize_file_name(n.as_str())
    } else {
        job.output_file_name.clone()
    }
}

/// What is done with a job's file once its folder exists.
#[derive(PartialEq, Eq, Structural, Clone, Copy, Debug)]
pub enum JobAction {
    /// The file exists and the user decides: compare it with the original.
    CompareSizes,
    /// Download the original.
    Download,
    /// The download was cancelled: leave the file alone.
    Leave,
}

/// What is done with a job's file: an existing file is compared where the
/// user is asked about existing files; otherwise the original is
/// downloaded unless the download was cancelled.
pub fn job_action(target_exists: bool, existing: ExistingMode, cancelled: bool) -> (a: JobAction)
    ensures
        a == (if target_exists && existing == ExistingMode::Ask {
            JobAction::CompareSizes
        } else if !cancelled {
            JobAction::Download
        } else {
            JobAction::Leave
        }),
{
    if target_exists && existing == ExistingMode::Ask {
        JobAction::CompareSizes
    } else if !cancelled {
        JobAction::Download
    } else {
        JobAction::Leave
    }
}

/// How a job ended.
#[derive(Debug)]
pub enum JobOutcome {
    /// Its folder could not be created; the error's text.
    FolderFailed(String),
    /// Its file exists already with the size of the original.
    Present,
    /// Its file exists with another size (or the original's size is not
    /// known); the user decides later.
    Conflict(ConflictItem),
    /// The original was downloaded.
    Downloaded,
    /// Downloading failed; the error's text.
    DownloadFailed(String),
    /// The download was cancelled before the file.
    Left,
}

/// How a file that exists already ends: present where the original has its
/// size, else a conflict for the user to decide, not marked.
pub fn existing_file_outcome(job: DownloadJob, local_size: u64, remote_size: Option<u64>) -> (o: JobOutcome)
    ensures
        remote_size == Some(local_size) ==> o is Present,
        remote_size != Some(local_size) ==> (o matches JobOutcome::Conflict(c) && c.job == job
            && !c.selected && c.local_size == local_size && c.remote_size == remote_size),
{
    let same = match remote_size {
        Some(r) => r == local_size,
        None => false,
    };
    if same {
        JobOutcome::Present
    } else {
        JobOutcome::Conflict(ConflictItem { job, selected: false, local_size, remote_size })
    }
}

/// The line of the error list for a file: its name and the error.
pub open spec fn error_line(file_name: Seq<char>, error: Seq<char>) -> Seq<char> {
    file_name + " : "@ + error
}

/// The counts of a running download, the conflicts it found and the lines
/// of its error list.
#[derive(Debug)]
pub struct JobTally {
    pub downloaded: usize,
    pub skipped: usize,
    pub failed: usize,
    pub completed: usize,
    pub active: usize,
    /// Jobs that ended without any work because the download was cancelled.
    pub left: usize,
    pub conflicts: Vec<ConflictItem>,
    pub errors: Vec<String>,
}

impl JobTally {
    /// The counts agree with each other: one error line per failure, every
    /// conflict counted as skipped, and every completed job counted exactly
    /// once, as downloaded, skipped, failed or left.
    pub open spec fn tally_ok(&self) -> bool {
        &&& self.errors@.len() == self.failed
        &&& self.conflicts@.len() <= self.skipped
        &&& self.downloaded + self.skipped + self.failed + self.left == self.completed
    }

    /// Nothing counted yet.
    pub fn new() -> (t: JobTally)
        ensures
            t.tally_ok(),
            t.downloaded == 0 && t.skipped == 0 && t.failed == 0 && t.completed == 0 && t.active
                == 0 && t.left == 0,
            t.conflicts@.len() == 0 && t.errors@.len() == 0,
    {
        JobTally {
            downloaded: 0,
            skipped: 0,
            failed: 0,
            completed: 0,
            active: 0,
            left: 0,
            conflicts: Vec::new(),
            errors: Vec::new(),
        }
    }

    /// A worker takes up a job.
    pub fn start_job(&mut self)
        requires
            old(self).active < usize::MAX,
        ensures
            final(self).active == old(self).active + 1,
            *final(self) == (JobTally { active: final(self).active, ..*old(self) }),
    {
        self.active = self.active + 1;
    }

    /// Counts a job that ended, given its file name and how it ended, and
    /// gives the progress event that reports it.
    pub fn record(&mut self, file_name: String, outcome: JobOutcome, total: usize) -> (e: DownloadEvent)
        requires
            old(self).tally_ok(),
            old(self).active > 0,
            old(self).completed < usize::MAX,
        ensures
            final(self).tally_ok(),
            final(self).active == old(self).active - 1,
            final(self).completed == old(self).completed + 1,
            match outcome {
                JobOutcome::FolderFailed(err) | JobOutcome::DownloadFailed(err) => {
                    &&& final(self).failed == old(self).failed + 1
                    &&& final(self).errors@.len() == old(self).errors@.len() + 1
                    &&& final(self).errors@.drop_last() == old(self).errors@
                    &&& final(self).errors@.last()@ == error_line(file_name@, err@)
                    &&& final(self).downloaded == old(self).downloaded
                    &&& final(self).skipped == old(self).skipped
                    &&& final(self).conflicts == old(self).conflicts
                    &&& final(self).left == old(self).left
                },
                JobOutcome::Present => {
                    &&& final(self).left == old(self).left
                    &&& final(self).skipped == old(self).skipped + 1
                    &&& final(self).downloaded == old(self).downloaded
                    &&& final(self).failed == old(self).failed
                    &&& final(self).conflicts == old(self).conflicts
                    &&& final(self).errors == old(self).errors
                },
                JobOutcome::Conflict(c) => {
                    &&& final(self).left == old(self).left
                    &&& final(self).skipped == old(self).skipped + 1
                    &&& final(self).conflicts@ == old(self).conflicts@.push(c)
                    &&& final(self).downloaded == old(self).downloaded
                    &&& final(self).failed == old(self).failed
                    &&& final(self).errors == old(self).errors
                },
                JobOutcome::Downloaded => {
                    &&& final(self).left == old(self).left
                    &&& final(self).downloaded == old(self).downloaded + 1
                    &&& final(self).skipped == old(self).skipped
                    &&& final(self).failed == old(self).failed
                    &&& final(self).conflicts == old(self).conflicts
                    &&& final(self).errors == old(self).errors
                },
                JobOutcome::Left => {
                    &&& final(self).left == old(self).left + 1
                    &&& final(self).downloaded == old(self).downloaded
                    &&& final(self).skipped == old(self).skipped
                    &&& final(self).failed == old(self).failed
                    &&& final(self).conflicts == old(self).conflicts
                    &&& final(self).errors == old(self).errors
                },
            },
            e matches DownloadEvent::Progress {
                current,
                total: t,
                file_name: f,
                downloaded,
                skipped,
                failed,
                active,
            } && current == final(self).completed && t == total && f@ == file_name@ && downloaded
                == final(self).downloaded && skipped == final(self).skipped && failed
                == final(self).failed && active == final(self).active,
    {
        match outcome {
            JobOutcome::FolderFailed(err) => {
                self.failed = self.failed + 1;
                self.errors.push(concat3(file_name.as_str(), " : ", err.as_str()));
            },
            JobOutcome::DownloadFailed(err) => {
                self.failed = self.failed + 1;
                self.errors.push(concat3(file_name.as_str(), " : ", err.as_str()));
            },
            JobOutcome::Present => {
                self.skipped = self.skipped + 1;
            },
            JobOutcome::Conflict(c) => {
                self.skipped = self.skipped + 1;
                self.conflicts.push(c);
            },
            JobOutcome::Downloaded => {
                self.downloaded = self.downloaded + 1;
            },
            JobOutcome::Left => {
                self.left = self.left + 1;
            },
        }
        self.active = self.active - 1;
        self.completed = self.completed + 1;
        DownloadEvent::Progress {
            current: self.completed,
            total,
            file_name,
            downloaded: self.downloaded,
            skipped: self.skipped,
            failed: self.failed,
            active: self.active,
        }
    }

    /// The event that ends a run: the counts of the tally and whether the
    /// run was cancelled; a run that overwrites files reports nothing
    /// skipped and no conflicts.
    pub fn finish(self, overwrite: bool, cancelled: bool) -> (e: DownloadEvent)
        ensures
            e matches DownloadEvent::Finished {
                downloaded,
                skipped,
                failed,
                conflicts,
                cancelled: c,
            } && downloaded == self.downloaded && skipped == (if overwrite {
                0
            } else {
                self.skipped
            }) && failed == self.failed && conflicts@ == (if overwrite {
                Seq::<ConflictItem>::empty()
            } else {
                self.conflicts@
            }) && c == cancelled,
    {
        DownloadEvent::Finished {
            downloaded: self.downloaded,
            skipped: if overwrite {
                0
            } else {
                self.skipped
            },
            failed: self.failed,
            conflicts: if overwrite {
                Vec::new()
            } else {
                self.conflicts
            },
            cancelled,
        }
    }
}

/// The size that the answer to a `HEAD` request gives: its length, where
/// the request succeeded and the length is known and positive.
pub fn head_size(success: bool, content_length: Option<u64>) -> (r: Option<u64>)
    ensures
        r == (if success && (content_length matches Some(n) && n > 0) {
            content_length
        } else {
            None
        }),
{
    if success {
        match content_length {
            Some(n) => {
                if n > 0 {
                    return Some(n);
                }
            },
            None => {},
        }
    }
    None
}

/// What `str::parse::<u64>` gives: an optional `+` followed by at least one
/// decimal digit and nothing else, whose value fits in `u64`.
pub open spec fn parse_u64_spec(s: Seq<char>) -> Option<u64> {
    let body = if s.len() > 0 && s[0] == '+' {
        s.drop_first()
    } else {
        s
    };
    if body.len() == 0 || !all_digits(body) || digits_value(body) > u64::MAX {
        None
    } else {
        Some(digits_value(body) as u64)
    }
}

/// `str::parse::<u64>` with its error dropped: an optional `+`, then
/// decimal digits whose value fits in `u64`.
fn parse_u64(s: &str) -> (r: Option<u64>)
    ensures
        r == parse_u64_spec(s@),
{
    let v = chars_of(s);
    let start: usize = if v.len() > 0 && v[0] == '+' {
        1
    } else {
        0
    };
    proof {
        if start == 1 {
            assert(v@.subrange(1, v.len() as int) =~= s@.drop_first());
        } else {
            assert(v@.subrange(0, v.len() as int) =~= s@);
        }
    }
    digits_up_to(&v, start, u64::MAX)
}

/// The total size that a `Content-Range` value names after its last `/`:
/// none where that is `*`, else the positive integer it spells.
pub open spec fn range_total_spec(value: Seq<char>) -> Option<u64> {
    let t = last_segment(value);
    if t == "*"@ {
        None
    } else {
        match parse_u64_spec(t) {
            Some(n) => if n > 0 {
                Some(n)
            } else {
                None
            },
            None => None,
        }
    }
}

/// The total size that a `Content-Range` value names.
pub fn content_range_total(value: &str) -> (r: Option<u64>)
    ensures
        r == range_total_spec(value@),
{
    let v = chars_of(value);
    let mut start: usize = v.len();
    proof {
        assert(v@.take(v.len() as int) =~= v@);
        assert(v@.subrange(start as int, v.len() as int) =~= Seq::<char>::empty());
    }
    while start > 0 && v[start - 1] != '/'
        invariant
            start <= v.len(),
            v@ == value@,
            last_segment(v@) == last_segment(v@.take(start as int)) + v@.subrange(
                start as int,
                v.len() as int,
            ),
        decreases start,
    {
        proof {
            let t = v@.take(start as int);
            assert(t.drop_last() =~= v@.take(start - 1));
            assert(last_segment(t) == last_segment(t.drop_last()).push(t.last()));
            assert(v@.subrange(start - 1, v.len() as int) =~= seq![t.last()] + v@.subrange(
                start as int,
                v.len() as int,
            ));
            assert(last_segment(t.drop_last()).push(t.last()) + v@.subrange(
                start as int,
                v.len() as int,
            ) =~= last_segment(t.drop_last()) + v@.subrange(start - 1, v.len() as int));
        }
        start = start - 1;
    }
    proof {
        assert(last_segment(v@.take(start as int)) =~= Seq::<char>::empty());
    }
    let mut seg: Vec<char> = Vec::new();
    let mut i: usize = start;
    while i < v.len()
        invariant
            start <= i <= v.len(),
            seg@ == v@.subrange(start as int, i as int),
        decreases v.len() - i,
    {
        seg.push(v[i]);
        proof {
            assert(v@.subrange(start as int, i + 1) =~= v@.subrange(start as int, i as int).push(
                v@[i as int],
            ));
        }
        i = i + 1;
    }
    proof {
        assert(seg@ =~= last_segment(value@));
    }
    let text = string_of(&seg);
    if eq_str(&text, "*") {
        proof {
            reveal_strlit("*");
        }
        return None;
    }
    match parse_u64(text.as_str()) {
        Some(n) => if n > 0 {
            Some(n)
        } else {
            None
        },
        None => None,
    }
}

/// The size that the answer to a one-byte range request gives, where it
/// was accepted: the total its `Content-Range` names, else its length where
/// that is more than the one byte asked for.
pub fn range_size(accepted: bool, content_range: Option<String>, content_length: Option<u64>) -> (r:
    Option<u64>)
    ensures
        !accepted ==> r is None,
        accepted && (content_range matches Some(v) && range_total_spec(v@) is Some) ==> r
            == range_total_spec(content_range->0@),
        accepted && !(content_range matches Some(v) && range_total_spec(v@) is Some) ==> r == (if (content_length matches Some(
            n,
        ) && n > 1) {
            content_length
        } else {
            None
        }),
{
    if !accepted {
        return None;
    }
    match content_range {
        Some(v) => match content_range_total(v.as_str()) {
            Some(t) => {
                return Some(t);
            },
            None => {},
        },
        None => {},
    }
    match content_length {
        Some(n) => if n > 1 {
            Some(n)
        } else {
            None
        },
        None => None,
    }
}

/// How one attempt to download an original ended.
#[derive(Debug)]
pub enum AttemptResult {
    /// The file was written.
    Saved,
    /// The local file could not be created; the error's text.
    CreateFailed(String),
    /// The request or the transfer failed; the error's text.
    Failed(String),
}

/// What follows an attempt.
#[derive(Debug)]
pub enum RetryStep {
    /// Stop with this result.
    Finish(Result<(), String>),
    /// Wait this many milliseconds, then try again.
    Retry(u64),
    /// Stop for good: remove the partial file and report this error.
    GiveUp(String),
}

/// What follows attempt number `attempt` (from 0) of at most three: a
/// written file or a file that cannot be created ends the download; a
/// failed transfer is tried again after 250 ms, then 500 ms, and after the
/// third failure the download gives up with its error.
pub fn after_attempt(attempt: u32, result: AttemptResult) -> (step: RetryStep)
    requires
        attempt < 3,
    ensures
        match result {
            AttemptResult::Saved => step matches RetryStep::Finish(Ok(())),
            AttemptResult::CreateFailed(e) => step matches RetryStep::Finish(Err(m)) && m == e,
            AttemptResult::Failed(e) => if attempt < 2 {
                step matches RetryStep::Retry(ms) && ms == 250 * (attempt + 1)
            } else {
                step matches RetryStep::GiveUp(m) && m == e
            },
        },
{
    match result {
        AttemptResult::Saved => RetryStep::Finish(Ok(())),
        AttemptResult::CreateFailed(e) => RetryStep::Finish(Err(e)),
        AttemptResult::Failed(e) => {
            if attempt < 2 {
                RetryStep::Retry(250 * (attempt as u64 + 1))
            } else {
                RetryStep::GiveUp(e)
            }
        },
    }
}

/// The two events with which the reading of an album's assets begins: its
/// position among the selected albums, then the step that names it.
pub fn album_started(album: &Album, index: usize, total: usize) -> (events: (DownloadEvent, DownloadEvent))
    requires
        index < total,
    ensures
        events.0 matches DownloadEvent::AlbumProgress { current, total: t, album_name } && current
            == index + 1 && t == total && album_name@ == album.album_name@,
        events.1 matches DownloadEvent::Preparing(m) && m@ == "Lese Album: "@ + album.album_name@,
{
    (
        DownloadEvent::AlbumProgress {
            current: index + 1,
            total,
            album_name: album.album_name.clone(),
        },
        DownloadEvent::Preparing(concat2("Lese Album: ", album.album_name.as_str())),
    )
}

/// Where reading an album's assets failed.
#[derive(PartialEq, Eq, Structural, Clone, Copy, Debug)]
pub enum AlbumFailure {
    /// The request failed.
    Request,
    /// The response was no JSON.
    Data,
    /// Its items were no list of assets.
    Items,
}

/// The message with which the download stops when an album's assets could
/// not be read.
pub open spec fn album_failure_spec(stage: AlbumFailure, name: Seq<char>, error: Seq<char>) -> Seq<char> {
    "Album '"@ + name + match stage {
        AlbumFailure::Request => "' konnte nicht geladen werden: "@,
        AlbumFailure::Data => "' lieferte ungültige Daten: "@,
        AlbumFailure::Items => "' konnte nicht ausgewertet werden: "@,
    } + error
}

/// That message, for an album's name and the error's text.
pub fn album_failure_message(stage: AlbumFailure, name: &str, error: &str) -> (m: String)
    ensures
        m@ == album_failure_spec(stage, name@, error@),
{
    let middle = match stage {
        AlbumFailure::Request => "' konnte nicht geladen werden: ",
        AlbumFailure::Data => "' lieferte ungültige Daten: ",
        AlbumFailure::Items => "' konnte nicht ausgewertet werden: ",
    };
    let mut v: Vec<char> = Vec::new();
    push_str_chars(&mut v, "Album '");
    push_str_chars(&mut v, name);
    push_str_chars(&mut v, middle);
    push_str_chars(&mut v, error);
    proof {
        reveal_strlit("' konnte nicht geladen werden: ");
        reveal_strlit("' lieferte ungültige Daten: ");
        reveal_strlit("' konnte nicht ausgewertet werden: ");
        assert(v@ =~= album_failure_spec(stage, name@, error@));
    }
    string_of(&v)
}

/// The message with which the download stops when the destination folder
/// cannot be created.
pub fn target_dir_message(error: &str) -> (m: String)
    ensures
        m@ == "Zielordner konnte nicht erstellt werden: "@ + error@,
{
    concat2("Zielordner konnte nicht erstellt werden: ", error)
}

} // verus!
