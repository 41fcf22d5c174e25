//! De-duplication of the download queue: one job per asset and destination
//! folder, and a file name per job that no other job in its folder uses.

use vstd::prelude::*;
use crate::model::{Asset, DownloadJob};
use crate::naming::{file_name_ok, sanitized};
use crate::state::ImmichApp;
use crate::text::{
    chars_of, decimal, lowercase, push_all, push_decimal, push_str_chars, string_of, to_lowercase,
};

verus! {

// ---------------------------------------------------------------------------
// One job per asset and folder
// ---------------------------------------------------------------------------

/// How folder names are compared: two folders are the same where their
/// images under the fold are equal.
pub type Fold = spec_fn(Seq<char>) -> Seq<char>;

/// Folder names compared in lower case, as the download queue compares them.
pub open spec fn lower_fold() -> Fold {
    |f: Seq<char>| lowercase(f)
}

/// The key that identifies a job: its folder under the fold, `|`, the
/// asset id.
pub open spec fn dedup_key(fold: Fold, job: DownloadJob) -> Seq<char> {
    fold(job.folder_name@) + seq!['|'] + job.asset.id@
}

/// Some job of `jobs` has the key `k`.
pub open spec fn has_key(fold: Fold, jobs: Seq<DownloadJob>, k: Seq<char>) -> bool {
    exists|i: int| 0 <= i < jobs.len() && dedup_key(fold, #[trigger] jobs[i]) == k
}

/// The first position of a job with the key `k` (meaningful where some job
/// has it).
pub open spec fn key_index(fold: Fold, jobs: Seq<DownloadJob>, k: Seq<char>) -> int
    decreases jobs.len(),
{
    if jobs.len() == 0 {
        -1
    } else if has_key(fold, jobs.drop_last(), k) {
        key_index(fold, jobs.drop_last(), k)
    } else {
        jobs.len() - 1
    }
}

/// No two jobs share a key.
pub open spec fn keys_distinct(fold: Fold, jobs: Seq<DownloadJob>) -> bool {
    forall|i: int, j: int|
        0 <= i < jobs.len() && 0 <= j < jobs.len() && i != j ==> dedup_key(fold, #[trigger] jobs[i])
            != dedup_key(fold, #[trigger] jobs[j])
}

/// One step of the de-duplication: a job with a new key is appended; a job
/// whose key is present replaces the present one only where it is larger.
pub open spec fn dedup_step(fold: Fold, kept: Seq<DownloadJob>, job: DownloadJob) -> Seq<
    DownloadJob,
> {
    if has_key(fold, kept, dedup_key(fold, job)) {
        let i = key_index(fold, kept, dedup_key(fold, job));
        if kept[i].asset.file_size_in_byte >= job.asset.file_size_in_byte {
            kept
        } else {
            kept.update(i, job)
        }
    } else {
        kept.push(job)
    }
}

/// The jobs that de-duplication keeps, in the order their keys first occur.
pub open spec fn dedup_by(fold: Fold, jobs: Seq<DownloadJob>) -> Seq<DownloadJob>
    decreases jobs.len(),
{
    if jobs.len() == 0 {
        Seq::empty()
    } else {
        dedup_step(fold, dedup_by(fold, jobs.drop_last()), jobs.last())
    }
}

/// The jobs that the download queue keeps: folders compared in lower case.
pub open spec fn dedup_spec(jobs: Seq<DownloadJob>) -> Seq<DownloadJob> {
    dedup_by(lower_fold(), jobs)
}

/// Where some job has the key, the first such position holds a job with it.
proof fn lemma_key_index(fold: Fold, jobs: Seq<DownloadJob>, k: Seq<char>)
    requires
        has_key(fold, jobs, k),
    ensures
        0 <= key_index(fold, jobs, k) < jobs.len(),
        dedup_key(fold, jobs[key_index(fold, jobs, k)]) == k,
    decreases jobs.len(),
{
    let prev = jobs.drop_last();
    if has_key(fold, prev, k) {
        lemma_key_index(fold, prev, k);
        assert(prev[key_index(fold, prev, k)] == jobs[key_index(fold, prev, k)]);
    } else {
        let w = choose|w: int| 0 <= w < jobs.len() && dedup_key(fold, #[trigger] jobs[w]) == k;
        if w < jobs.len() - 1 {
            assert(prev[w] == jobs[w]);
            assert(dedup_key(fold, prev[w]) == k);
        }
    }
}

/// A de-duplication step keeps keys distinct, keeps or adds the job's key,
/// and every kept job is the new job or was kept before.
proof fn lemma_dedup_step(fold: Fold, kept: Seq<DownloadJob>, job: DownloadJob)
    requires
        keys_distinct(fold, kept),
    ensures
        keys_distinct(fold, dedup_step(fold, kept, job)),
        has_key(fold, dedup_step(fold, kept, job), dedup_key(fold, job)),
        forall|k: Seq<char>| has_key(fold, kept, k) ==> has_key(fold, dedup_step(fold, kept, job), k),
        forall|k: Seq<char>| #[trigger]
            has_key(fold, dedup_step(fold, kept, job), k) ==> has_key(fold, kept, k) || k == dedup_key(fold, job),
        forall|i: int|
            0 <= i < dedup_step(fold, kept, job).len() ==> #[trigger] dedup_step(fold, kept, job)[i] == job
                || kept.contains(dedup_step(fold, kept, job)[i]),
        forall|i: int|
            0 <= i < dedup_step(fold, kept, job).len() && dedup_key(fold, #[trigger] dedup_step(fold, kept, job)[i])
                == dedup_key(fold, job) ==> dedup_step(fold, kept, job)[i].asset.file_size_in_byte
                >= job.asset.file_size_in_byte,
        forall|i: int|
            0 <= i < dedup_step(fold, kept, job).len() && dedup_key(fold, #[trigger] dedup_step(fold, kept, job)[i])
                != dedup_key(fold, job) ==> i < kept.len() && dedup_step(fold, kept, job)[i] == kept[i],
{
    let k = dedup_key(fold, job);
    let next = dedup_step(fold, kept, job);
    if has_key(fold, kept, k) {
        let i = key_index(fold, kept, k);
        lemma_key_index(fold, kept, k);
        assert(dedup_key(fold, next[i]) == k);
        assert forall|kk: Seq<char>| has_key(fold, kept, kk) implies has_key(fold, next, kk) by {
            let w = choose|w: int| 0 <= w < kept.len() && dedup_key(fold, #[trigger] kept[w]) == kk;
            assert(dedup_key(fold, next[w]) == kk);
        }
        assert forall|kk: Seq<char>| #[trigger] has_key(fold, next, kk) implies has_key(fold, kept, kk) || kk
            == k by {
            let w = choose|w: int| 0 <= w < next.len() && dedup_key(fold, #[trigger] next[w]) == kk;
            if w != i {
                assert(dedup_key(fold, kept[w]) == kk);
            }
        }
        assert forall|a: int| 0 <= a < next.len() implies #[trigger] next[a] == job
            || kept.contains(next[a]) by {
            if next[a] != job {
                assert(kept[a] == next[a]);
            }
        }
    } else {
        assert(dedup_key(fold, next[kept.len() as int]) == k);
        assert forall|kk: Seq<char>| has_key(fold, kept, kk) implies has_key(fold, next, kk) by {
            let w = choose|w: int| 0 <= w < kept.len() && dedup_key(fold, #[trigger] kept[w]) == kk;
            assert(dedup_key(fold, next[w]) == kk);
        }
        assert forall|kk: Seq<char>| #[trigger] has_key(fold, next, kk) implies has_key(fold, kept, kk) || kk
            == k by {
            let w = choose|w: int| 0 <= w < next.len() && dedup_key(fold, #[trigger] next[w]) == kk;
            if w < kept.len() {
                assert(dedup_key(fold, kept[w]) == kk);
            }
        }
        assert forall|a: int| 0 <= a < next.len() implies #[trigger] next[a] == job
            || kept.contains(next[a]) by {
            if a < kept.len() {
                assert(kept[a] == next[a]);
            }
        }
    }
}

/// The laws of de-duplication, for every list of jobs and every way of
/// comparing folders: no two kept jobs share a key; every key of the input
/// is kept; every kept job is one of the input's jobs; and a kept job is at
/// least as large as every input job with its key.
pub proof fn lemma_dedup_laws(fold: Fold, jobs: Seq<DownloadJob>)
    ensures
        keys_distinct(fold, dedup_by(fold, jobs)),
        forall|i: int| 0 <= i < jobs.len() ==> has_key(fold, dedup_by(fold, jobs), dedup_key(fold, #[trigger] jobs[i])),
        forall|k: Seq<char>| #[trigger] has_key(fold, dedup_by(fold, jobs), k) ==> has_key(fold, jobs, k),
        forall|i: int| 0 <= i < dedup_by(fold, jobs).len() ==> jobs.contains(#[trigger] dedup_by(fold, jobs)[i]),
        forall|i: int, j: int|
            0 <= i < dedup_by(fold, jobs).len() && 0 <= j < jobs.len() && dedup_key(fold, 
                #[trigger] dedup_by(fold, jobs)[i],
            ) == dedup_key(fold, #[trigger] jobs[j]) ==> dedup_by(fold, jobs)[i].asset.file_size_in_byte
                >= jobs[j].asset.file_size_in_byte,
    decreases jobs.len(),
{
    if jobs.len() > 0 {
        let prev = jobs.drop_last();
        let job = jobs.last();
        lemma_dedup_laws(fold, prev);
        let kept = dedup_by(fold, prev);
        let next = dedup_by(fold, jobs);
        lemma_dedup_step(fold, kept, job);
        assert(next == dedup_step(fold, kept, job));
        assert forall|i: int| 0 <= i < jobs.len() implies has_key(fold, next, dedup_key(fold, #[trigger] jobs[i])) by {
            if i < prev.len() {
                assert(prev[i] == jobs[i]);
                assert(has_key(fold, kept, dedup_key(fold, prev[i])));
            }
        }
        assert forall|k: Seq<char>| #[trigger] has_key(fold, next, k) implies has_key(fold, jobs, k) by {
            if has_key(fold, kept, k) {
                let w = choose|w: int| 0 <= w < prev.len() && dedup_key(fold, #[trigger] prev[w]) == k;
                assert(jobs[w] == prev[w]);
            } else {
                assert(dedup_key(fold, jobs[jobs.len() - 1]) == k);
            }
        }
        assert forall|i: int| 0 <= i < next.len() implies jobs.contains(#[trigger] next[i]) by {
            if next[i] == job {
                assert(jobs[jobs.len() - 1] == job);
            } else {
                let w = choose|w: int| 0 <= w < kept.len() && kept[w] == next[i];
                assert(prev.contains(kept[w]));
                let v = choose|v: int| 0 <= v < prev.len() && prev[v] == kept[w];
                assert(jobs[v] == prev[v]);
            }
        }
        assert forall|i: int, j: int|
            0 <= i < next.len() && 0 <= j < jobs.len() && dedup_key(fold, #[trigger] next[i]) == dedup_key(fold, 
                #[trigger] jobs[j],
            ) implies next[i].asset.file_size_in_byte >= jobs[j].asset.file_size_in_byte by {
            if j == jobs.len() - 1 {
                assert(jobs[j] == job);
            } else {
                assert(jobs[j] == prev[j]);
                if dedup_key(fold, next[i]) != dedup_key(fold, job) {
                    assert(next[i] == kept[i]);
                } else {
                    // the kept job of this key was at least as large before,
                    // and the step only replaces it with a larger one
                    assert(has_key(fold, kept, dedup_key(fold, job)));
                    let w = key_index(fold, kept, dedup_key(fold, job));
                    lemma_key_index(fold, kept, dedup_key(fold, job));
                    assert(dedup_key(fold, kept[w]) == dedup_key(fold, prev[j]));
                    if kept[w].asset.file_size_in_byte >= job.asset.file_size_in_byte {
                        assert(next == kept);
                    } else {
                        assert(next == kept.update(w, job));
                        assert(i == w);
                    }
                }
            }
        }
    }
}

/// De-duplication is idempotent: a list whose keys are distinct (as every
/// de-duplicated list's are) is left as it is, so de-duplicating twice gives
/// what de-duplicating once gives.
pub proof fn lemma_dedup_idempotent(fold: Fold, jobs: Seq<DownloadJob>)
    ensures
        keys_distinct(fold, jobs) ==> dedup_by(fold, jobs) == jobs,
        dedup_by(fold, dedup_by(fold, jobs)) == dedup_by(fold, jobs),
{
    if keys_distinct(fold, jobs) {
        lemma_dedup_idempotent_distinct(fold, jobs);
    }
    lemma_dedup_laws(fold, jobs);
    lemma_dedup_idempotent_distinct(fold, dedup_by(fold, jobs));
}

/// A list whose keys are distinct is its own de-duplication.
proof fn lemma_dedup_idempotent_distinct(fold: Fold, jobs: Seq<DownloadJob>)
    requires
        keys_distinct(fold, jobs),
    ensures
        dedup_by(fold, jobs) == jobs,
    decreases jobs.len(),
{
    if jobs.len() > 0 {
        let prev = jobs.drop_last();
        assert(keys_distinct(fold, prev)) by {
            assert forall|i: int, j: int|
                0 <= i < prev.len() && 0 <= j < prev.len() && i != j implies dedup_key(fold, 
                #[trigger] prev[i],
            ) != dedup_key(fold, #[trigger] prev[j]) by {
                assert(prev[i] == jobs[i] && prev[j] == jobs[j]);
            }
        }
        lemma_dedup_idempotent_distinct(fold, prev);
        assert(!has_key(fold, prev, dedup_key(fold, jobs.last()))) by {
            if has_key(fold, prev, dedup_key(fold, jobs.last())) {
                let w = choose|w: int| 0 <= w < prev.len() && dedup_key(fold, #[trigger] prev[w]) == dedup_key(fold, 
                    jobs.last(),
                );
                assert(prev[w] == jobs[w]);
                assert(dedup_key(fold, jobs[w]) == dedup_key(fold, jobs[jobs.len() - 1]));
            }
        }
        assert(prev.push(jobs.last()) =~= jobs);
    }
}

/// The fold that folder keys given with the jobs make: a folder of one of
/// the jobs has the key given with it, any other folder is its own key.
pub open spec fn given_fold(jobs: Seq<DownloadJob>, keys: Seq<Seq<char>>) -> Fold {
    |f: Seq<char>|
        if exists|i: int| 0 <= i < jobs.len() && (#[trigger] jobs[i]).folder_name@ == f {
            keys[choose|i: int| 0 <= i < jobs.len() && (#[trigger] jobs[i]).folder_name@ == f]
        } else {
            f
        }
}

/// `keys[i]` is the key of the folder of `jobs[i]`: one key per job, and
/// jobs with the same folder have the same key.
pub open spec fn folder_keys_ok(jobs: Seq<DownloadJob>, keys: Seq<Seq<char>>) -> bool {
    &&& keys.len() == jobs.len()
    &&& forall|i: int, j: int|
        0 <= i < jobs.len() && 0 <= j < jobs.len() && jobs[i].folder_name@ == jobs[j].folder_name@
            ==> #[trigger] keys[i] == #[trigger] keys[j]
}

/// The two folds agree on the folders of the jobs.
pub open spec fn folds_agree(f1: Fold, f2: Fold, jobs: Seq<DownloadJob>) -> bool {
    forall|i: int| #![trigger jobs[i]] 0 <= i < jobs.len() ==> f1(jobs[i].folder_name@) == f2(
        jobs[i].folder_name@,
    )
}

/// With folder keys given for every job, each job's folder has its key.
proof fn lemma_given_fold(jobs: Seq<DownloadJob>, keys: Seq<Seq<char>>, i: int)
    requires
        folder_keys_ok(jobs, keys),
        0 <= i < jobs.len(),
    ensures
        (given_fold(jobs, keys))(jobs[i].folder_name@) == keys[i],
{
    let f = jobs[i].folder_name@;
    assert(exists|w: int| 0 <= w < jobs.len() && (#[trigger] jobs[w]).folder_name@ == f);
    let w = choose|w: int| 0 <= w < jobs.len() && (#[trigger] jobs[w]).folder_name@ == f;
    assert(keys[w] == keys[i]);
}

/// Folds that agree on the jobs' folders find the same keys at the same
/// places.
proof fn lemma_keys_agree(f1: Fold, f2: Fold, jobs: Seq<DownloadJob>, k: Seq<char>)
    requires
        folds_agree(f1, f2, jobs),
    ensures
        has_key(f1, jobs, k) == has_key(f2, jobs, k),
        key_index(f1, jobs, k) == key_index(f2, jobs, k),
    decreases jobs.len(),
{
    if has_key(f1, jobs, k) {
        let w = choose|w: int| 0 <= w < jobs.len() && dedup_key(f1, #[trigger] jobs[w]) == k;
        assert(dedup_key(f2, jobs[w]) == k);
    }
    if has_key(f2, jobs, k) {
        let w = choose|w: int| 0 <= w < jobs.len() && dedup_key(f2, #[trigger] jobs[w]) == k;
        assert(dedup_key(f1, jobs[w]) == k);
    }
    if jobs.len() > 0 {
        let prev = jobs.drop_last();
        assert(folds_agree(f1, f2, prev)) by {
            assert forall|i: int| 0 <= i < prev.len() implies f1(prev[i].folder_name@) == f2(
                prev[i].folder_name@,
            ) by {
                assert(prev[i] == jobs[i]);
            }
        }
        lemma_keys_agree(f1, f2, prev, k);
    }
}

/// De-duplication depends on the fold only through the jobs' folders.
pub proof fn lemma_dedup_agree(f1: Fold, f2: Fold, jobs: Seq<DownloadJob>)
    requires
        folds_agree(f1, f2, jobs),
    ensures
        dedup_by(f1, jobs) == dedup_by(f2, jobs),
    decreases jobs.len(),
{
    if jobs.len() > 0 {
        let prev = jobs.drop_last();
        let job = jobs.last();
        assert(folds_agree(f1, f2, prev)) by {
            assert forall|i: int| 0 <= i < prev.len() implies f1(prev[i].folder_name@) == f2(
                prev[i].folder_name@,
            ) by {
                assert(prev[i] == jobs[i]);
            }
        }
        lemma_dedup_agree(f1, f2, prev);
        let kept = dedup_by(f1, prev);
        lemma_dedup_laws(f1, prev);
        assert(folds_agree(f1, f2, kept)) by {
            assert forall|i: int| 0 <= i < kept.len() implies f1(kept[i].folder_name@) == f2(
                kept[i].folder_name@,
            ) by {
                assert(prev.contains(kept[i]));
                let w = choose|w: int| 0 <= w < prev.len() && prev[w] == kept[i];
                assert(prev[w] == jobs[w]);
            }
        }
        assert(jobs[jobs.len() - 1] == job);
        assert(dedup_key(f1, job) == dedup_key(f2, job));
        lemma_keys_agree(f1, f2, kept, dedup_key(f1, job));
    }
}

/// The folder keys as text.
pub open spec fn key_views(keys: Seq<String>) -> Seq<Seq<char>> {
    keys.map_values(|s: String| s@)
}

impl ImmichApp {
    /// Keeps one job per asset and destination folder, given the key of
    /// each job's folder (`folder_keys[i]` for `jobs[i]`): of several jobs
    /// with the same folder key and asset, the first of the largest.
    pub fn deduplicate_jobs_by_keys(jobs: Vec<DownloadJob>, folder_keys: &Vec<String>) -> (out: Vec<
        DownloadJob,
    >)
        requires
            folder_keys_ok(jobs@, key_views(folder_keys@)),
        ensures
            out@ == dedup_by(given_fold(jobs@, key_views(folder_keys@)), jobs@),
    {
        let ghost fold = given_fold(jobs@, key_views(folder_keys@));
        let mut best: Vec<DownloadJob> = Vec::new();
        let mut keys: Vec<String> = Vec::new();
        let mut i: usize = 0;
        while i < jobs.len()
            invariant
                i <= jobs.len(),
                folder_keys_ok(jobs@, key_views(folder_keys@)),
                fold == given_fold(jobs@, key_views(folder_keys@)),
                best@ == dedup_by(fold, jobs@.take(i as int)),
                keys.len() == best.len(),
                forall|a: int| 0 <= a < keys.len() ==> (#[trigger] keys[a])@ == dedup_key(fold, best[a]),
                keys_distinct(fold, best@),
            decreases jobs.len() - i,
        {
            let job = jobs[i].duplicate();
            let mut kv: Vec<char> = Vec::new();
            push_str_chars(&mut kv, folder_keys[i].as_str());
            kv.push('|');
            push_str_chars(&mut kv, job.asset.id.as_str());
            proof {
                lemma_given_fold(jobs@, key_views(folder_keys@), i as int);
                assert(key_views(folder_keys@)[i as int] == folder_keys@[i as int]@);
                assert(kv@ =~= dedup_key(fold, job));
            }
            let key = string_of(&kv);
            proof {
                assert(jobs@.take(i + 1).drop_last() =~= jobs@.take(i as int));
                assert(jobs@.take(i + 1).last() == job);
                lemma_dedup_step(fold, best@, job);
            }
            let mut j: usize = 0;
            while j < keys.len() && keys[j] != key
                invariant
                    j <= keys.len(),
                    keys.len() == best.len(),
                    forall|a: int| 0 <= a < keys.len() ==> (#[trigger] keys[a])@ == dedup_key(fold, best[a]),
                    forall|a: int| 0 <= a < j ==> (#[trigger] keys[a])@ != key@,
                decreases keys.len() - j,
            {
                j = j + 1;
            }
            let found = j < keys.len();
            if found {
                proof {
                    assert(dedup_key(fold, best@[j as int]) == dedup_key(fold, job));
                    assert(has_key(fold, best@, dedup_key(fold, job)));
                    lemma_key_index(fold, best@, dedup_key(fold, job));
                    let w = key_index(fold, best@, dedup_key(fold, job));
                    assert(w == j);
                }
                if best[j].asset.file_size_in_byte < job.asset.file_size_in_byte {
                    best.set(j, job);
                }
            } else {
                proof {
                    assert forall|a: int| 0 <= a < best.len() implies dedup_key(
                        fold,
                        #[trigger] best@[a],
                    ) != dedup_key(fold, job) by {
                        assert(keys[a]@ == dedup_key(fold, best@[a]));
                    }
                    assert(!has_key(fold, best@, dedup_key(fold, job)));
                }
                best.push(job);
                keys.push(key);
            }
            i = i + 1;
        }
        proof {
            assert(jobs@.take(jobs.len() as int) =~= jobs@);
        }
        best
    }

    /// Keeps one job per asset and destination folder (folders compared in
    /// lower case): of several, the first of the largest.
    pub fn deduplicate_jobs(jobs: Vec<DownloadJob>) -> (out: Vec<DownloadJob>)
        ensures
            out@ == dedup_spec(jobs@),
    {
        let mut keys: Vec<String> = Vec::new();
        let mut i: usize = 0;
        while i < jobs.len()
            invariant
                i <= jobs.len(),
                keys.len() == i,
                forall|a: int| 0 <= a < i ==> (#[trigger] keys[a])@ == lowercase(jobs[a].folder_name@),
            decreases jobs.len() - i,
        {
            keys.push(to_lowercase(jobs[i].folder_name.as_str()));
            i = i + 1;
        }
        let ghost all = jobs@;
        let ghost kv = key_views(keys@);
        proof {
            assert forall|a: int, b: int|
                0 <= a < all.len() && 0 <= b < all.len() && all[a].folder_name@
                    == all[b].folder_name@ implies #[trigger] kv[a] == #[trigger] kv[b] by {
                assert(kv[a] == keys[a]@);
                assert(kv[b] == keys[b]@);
            }
        }
        let out = Self::deduplicate_jobs_by_keys(jobs, &keys);
        proof {
            assert forall|a: int| #![trigger all[a]] 0 <= a < all.len() implies (given_fold(
                all,
                kv,
            ))(all[a].folder_name@) == (lower_fold())(all[a].folder_name@) by {
                lemma_given_fold(all, kv, a);
                assert(kv[a] == keys[a]@);
            }
            lemma_dedup_agree(given_fold(all, kv), lower_fold(), all);
        }
        out
    }
}


// ---------------------------------------------------------------------------
// A distinct file name per job and folder
// ---------------------------------------------------------------------------

/// The position of the last `.` in a name.
pub open spec fn last_dot(name: Seq<char>) -> Option<int>
    decreases name.len(),
{
    if name.len() == 0 {
        None
    } else if name.last() == '.' {
        Some(name.len() - 1)
    } else {
        last_dot(name.drop_last())
    }
}

/// The name splits into a stem and an extension at its last `.`, both
/// non-empty.
pub open spec fn splits(name: Seq<char>) -> bool {
    match last_dot(name) {
        Some(p) => p > 0 && p + 1 < name.len(),
        None => false,
    }
}

/// The part of a name before its extension (the whole name where it has
/// none).
pub open spec fn stem_of(name: Seq<char>) -> Seq<char> {
    if splits(name) {
        name.take(last_dot(name).unwrap())
    } else {
        name
    }
}

/// The extension of a name with its dot (empty where it has none).
pub open spec fn ext_of(name: Seq<char>) -> Seq<char> {
    if splits(name) {
        name.skip(last_dot(name).unwrap())
    } else {
        Seq::empty()
    }
}

/// The `k`-th name tried for a file: the name itself, then the stem with
/// `_` and the asset id, then the stem with `_`, the asset id, `-` and `k`,
/// each with the extension.
pub open spec fn candidate_name(base: Seq<char>, id: Seq<char>, k: nat) -> Seq<char> {
    if k == 0 {
        base
    } else if k == 1 {
        stem_of(base) + seq!['_'] + id + ext_of(base)
    } else {
        stem_of(base) + seq!['_'] + id + seq!['-'] + decimal(k) + ext_of(base)
    }
}

/// The key a destination path is compared by: folder and file name in lower
/// case, joined by a backslash.
pub open spec fn path_key(folder: Seq<char>, name: Seq<char>) -> Seq<char> {
    lowercase(folder) + seq!['\\'] + lowercase(name)
}

/// The path key of the `k`-th name tried for a job.
pub open spec fn cand_key(job: DownloadJob, base: Seq<char>, k: nat) -> Seq<char> {
    path_key(job.folder_name@, candidate_name(base, job.asset.id@, k))
}

/// The name tried first, from `k` on, whose path key is not taken yet; the
/// search stops at the number of keys taken.
pub open spec fn chosen_suffix(used: Seq<Seq<char>>, job: DownloadJob, base: Seq<char>, k: nat) -> nat
    decreases used.len() - k,
{
    if k >= used.len() {
        k
    } else if !used.contains(cand_key(job, base, k)) {
        k
    } else {
        chosen_suffix(used, job, base, k + 1)
    }
}

/// The path keys taken after naming the jobs in order.
pub open spec fn named_keys(jobs: Seq<DownloadJob>, bases: Seq<Seq<char>>) -> Seq<Seq<char>>
    decreases jobs.len(),
{
    if jobs.len() == 0 {
        Seq::empty()
    } else {
        let used = named_keys(jobs.drop_last(), bases.take(jobs.len() - 1));
        let job = jobs.last();
        let base = bases[jobs.len() - 1];
        used.push(cand_key(job, base, chosen_suffix(used, job, base, 0)))
    }
}

/// The name the `i`-th job gets.
pub open spec fn assigned_name(jobs: Seq<DownloadJob>, bases: Seq<Seq<char>>, i: int) -> Seq<char> {
    let used = named_keys(jobs.take(i), bases.take(i));
    candidate_name(bases[i], jobs[i].asset.id@, chosen_suffix(used, jobs[i], bases[i], 0))
}

/// The two jobs agree but for their output file names.
pub open spec fn same_but_name(a: DownloadJob, b: DownloadJob) -> bool {
    &&& a.asset == b.asset
    &&& a.folder_name == b.folder_name
    &&& a.group_name == b.group_name
    &&& a.album_position == b.album_position
}

/// `bases` are base names the jobs' files may have: each the sanitized form
/// of a file name `asset_file_name` may give the job's asset.
pub open spec fn valid_base_names(jobs: Seq<DownloadJob>, bases: Seq<Seq<char>>) -> bool {
    &&& bases.len() == jobs.len()
    &&& forall|i: int| 0 <= i < bases.len() ==> base_name_ok(jobs[i].asset, #[trigger] bases[i])
}

/// `b` is the sanitized form of a file name `asset_file_name` may give the
/// asset.
pub open spec fn base_name_ok(asset: Asset, b: Seq<char>) -> bool {
    exists|n: Seq<char>| file_name_ok(asset, n) && b == sanitized(n)
}

/// `out` are the jobs with the output file names naming gives them.
pub open spec fn named_jobs(out: Seq<DownloadJob>, jobs: Seq<DownloadJob>, bases: Seq<Seq<char>>) -> bool {
    &&& out.len() == jobs.len()
    &&& forall|i: int|
        0 <= i < jobs.len() ==> same_but_name(#[trigger] out[i], jobs[i]) && out[i].output_file_name@
            == assigned_name(jobs, bases, i)
}

/// For every job, the path keys of the names that may be tried for it are
/// distinct (case folding never makes two of them collide).
pub open spec fn candidates_separated(jobs: Seq<DownloadJob>, bases: Seq<Seq<char>>) -> bool {
    forall|i: int, k1: nat, k2: nat|
        0 <= i < jobs.len() && k1 < k2 <= i ==> #[trigger] cand_key(jobs[i], bases[i], k1)
            != #[trigger] cand_key(jobs[i], bases[i], k2)
}

/// The search stops between `k` and the number of keys taken; every name
/// before the one it stops at is taken, and where it stops before the end
/// the name is free.
proof fn lemma_chosen_suffix(used: Seq<Seq<char>>, job: DownloadJob, base: Seq<char>, k: nat)
    requires
        k <= used.len(),
    ensures
        k <= chosen_suffix(used, job, base, k) <= used.len(),
        forall|m: nat|
            k <= m < chosen_suffix(used, job, base, k) ==> used.contains(
                #[trigger] cand_key(job, base, m),
            ),
        chosen_suffix(used, job, base, k) < used.len() ==> !used.contains(
            cand_key(job, base, chosen_suffix(used, job, base, k)),
        ),
    decreases used.len() - k,
{
    if k < used.len() && used.contains(cand_key(job, base, k)) {
        lemma_chosen_suffix(used, job, base, k + 1);
    }
}

/// `n + 1` distinct values cannot all lie among `n` values.
proof fn lemma_pigeonhole(c: Seq<Seq<char>>, u: Seq<Seq<char>>)
    requires
        c.len() == u.len() + 1,
        c.no_duplicates(),
        forall|m: int| 0 <= m < u.len() ==> u.contains(#[trigger] c[m]),
    ensures
        !u.contains(c[u.len() as int]),
{
    broadcast use vstd::seq_lib::seq_to_set_is_finite;

    if u.contains(c[u.len() as int]) {
        assert(c.to_set().subset_of(u.to_set())) by {
            assert forall|x: Seq<char>| c.to_set().contains(x) implies u.to_set().contains(x) by {
                let m = choose|m: int| 0 <= m < c.len() && c[m] == x;
                assert(u.contains(c[m]));
            }
        }
        c.unique_seq_to_set();
        u.lemma_cardinality_of_set();
        vstd::set_lib::lemma_len_subset(c.to_set(), u.to_set());
    }
}

/// The laws of naming, for jobs whose candidate names case folding keeps
/// apart: no two named jobs share a path key, so no two jobs in one folder
/// get the same file name.
pub proof fn lemma_named_keys_distinct(jobs: Seq<DownloadJob>, bases: Seq<Seq<char>>)
    requires
        bases.len() == jobs.len(),
        candidates_separated(jobs, bases),
    ensures
        named_keys(jobs, bases).len() == jobs.len(),
        named_keys(jobs, bases).no_duplicates(),
        forall|i: int|
            0 <= i < jobs.len() ==> #[trigger] named_keys(jobs, bases)[i] == path_key(
                jobs[i].folder_name@,
                assigned_name(jobs, bases, i),
            ),
    decreases jobs.len(),
{
    if jobs.len() > 0 {
        let n = (jobs.len() - 1) as int;
        let pj = jobs.drop_last();
        let pb = bases.take(n);
        assert(candidates_separated(pj, pb)) by {
            assert forall|i: int, k1: nat, k2: nat|
                0 <= i < pj.len() && k1 < k2 <= i implies #[trigger] cand_key(pj[i], pb[i], k1)
                != #[trigger] cand_key(pj[i], pb[i], k2) by {
                assert(pj[i] == jobs[i] && pb[i] == bases[i]);
                assert(cand_key(jobs[i], bases[i], k1) != cand_key(jobs[i], bases[i], k2));
            }
        }
        lemma_named_keys_distinct(pj, pb);
        let used = named_keys(pj, pb);
        let job = jobs.last();
        let base = bases[n];
        lemma_chosen_suffix(used, job, base, 0);
        let k = chosen_suffix(used, job, base, 0);
        if k == used.len() {
            let c = Seq::new((n + 1) as nat, |m: int| cand_key(job, base, m as nat));
            assert(c.no_duplicates()) by {
                assert forall|a: int, b: int| 0 <= a < c.len() && 0 <= b < c.len() && a != b implies c[a]
                    != c[b] by {
                    if a < b {
                        assert(cand_key(jobs[n], bases[n], a as nat) != cand_key(
                            jobs[n],
                            bases[n],
                            b as nat,
                        ));
                    } else {
                        assert(cand_key(jobs[n], bases[n], b as nat) != cand_key(
                            jobs[n],
                            bases[n],
                            a as nat,
                        ));
                    }
                }
            }
            assert forall|m: int| 0 <= m < used.len() implies used.contains(#[trigger] c[m]) by {
                assert(used.contains(cand_key(job, base, m as nat)));
            }
            lemma_pigeonhole(c, used);
        }
        assert(!used.contains(cand_key(job, base, k)));
        let all = named_keys(jobs, bases);
        assert(all == used.push(cand_key(job, base, k)));
        assert forall|i: int| 0 <= i < jobs.len() implies #[trigger] all[i] == path_key(
            jobs[i].folder_name@,
            assigned_name(jobs, bases, i),
        ) by {
            if i < n {
                assert(jobs.take(i) =~= pj.take(i));
                assert(bases.take(i) =~= pb.take(i));
                assert(pj[i] == jobs[i]);
                assert(pb[i] == bases[i]);
            } else {
                assert(jobs.take(n) =~= pj);
            }
        }
    }
}

/// The law of the download queue: where case folding keeps the candidate
/// names of each job apart, no two named jobs share a destination path (folder
/// and file name compared in lower case); in particular two jobs in the same
/// folder never get the same file name.
pub proof fn lemma_queue_paths_distinct(
    out: Seq<DownloadJob>,
    jobs: Seq<DownloadJob>,
    bases: Seq<Seq<char>>,
)
    requires
        bases.len() == jobs.len(),
        candidates_separated(jobs, bases),
        named_jobs(out, jobs, bases),
    ensures
        forall|i: int, j: int|
            0 <= i < out.len() && 0 <= j < out.len() && i != j ==> path_key(
                (#[trigger] out[i]).folder_name@,
                out[i].output_file_name@,
            ) != path_key((#[trigger] out[j]).folder_name@, out[j].output_file_name@),
        forall|i: int, j: int|
            0 <= i < out.len() && 0 <= j < out.len() && i != j && (#[trigger] out[i]).folder_name@
                == (#[trigger] out[j]).folder_name@ ==> out[i].output_file_name@
                != out[j].output_file_name@,
{
    lemma_named_keys_distinct(jobs, bases);
    let keys = named_keys(jobs, bases);
    assert forall|i: int, j: int|
        0 <= i < out.len() && 0 <= j < out.len() && i != j implies path_key(
        (#[trigger] out[i]).folder_name@,
        out[i].output_file_name@,
    ) != path_key((#[trigger] out[j]).folder_name@, out[j].output_file_name@) by {
        assert(keys[i] == path_key(out[i].folder_name@, out[i].output_file_name@));
        assert(keys[j] == path_key(out[j].folder_name@, out[j].output_file_name@));
    }
}

/// Whether `v` holds the text `x`.
fn contains_text(v: &Vec<String>, x: &String) -> (b: bool)
    ensures
        b == exists|a: int| 0 <= a < v.len() && (#[trigger] v[a])@ == x@,
{
    let mut i: usize = 0;
    while i < v.len()
        invariant
            i <= v.len(),
            forall|a: int| 0 <= a < i ==> (#[trigger] v[a])@ != x@,
        decreases v.len() - i,
    {
        if v[i] == *x {
            return true;
        }
        i = i + 1;
    }
    false
}

/// The `k`-th name tried for a file, given the stem and extension of its
/// base name.
fn candidate(base: &Vec<char>, stem: &Vec<char>, ext: &Vec<char>, id: &str, k: u64) -> (name: String)
    requires
        stem@ == stem_of(base@),
        ext@ == ext_of(base@),
    ensures
        name@ == candidate_name(base@, id@, k as nat),
{
    if k == 0 {
        return string_of(base);
    }
    let mut v: Vec<char> = Vec::new();
    push_all(&mut v, stem);
    v.push('_');
    push_str_chars(&mut v, id);
    if k >= 2 {
        v.push('-');
        push_decimal(&mut v, k);
    }
    push_all(&mut v, ext);
    proof {
        if k == 1 {
            assert(v@ =~= stem@ + seq!['_'] + id@ + ext@);
        } else {
            assert(v@ =~= stem@ + seq!['_'] + id@ + seq!['-'] + decimal(k as nat) + ext@);
        }
    }
    string_of(&v)
}

/// The stem and extension of a name.
fn split_name(base: &Vec<char>) -> (parts: (Vec<char>, Vec<char>))
    ensures
        parts.0@ == stem_of(base@),
        parts.1@ == ext_of(base@),
{
    let mut p: usize = base.len();
    proof {
        assert(base@.take(base.len() as int) =~= base@);
    }
    while p > 0 && base[p - 1] != '.'
        invariant
            p <= base.len(),
            last_dot(base@) == last_dot(base@.take(p as int)),
        decreases p,
    {
        proof {
            assert(base@.take(p as int).drop_last() =~= base@.take(p - 1));
        }
        p = p - 1;
    }
    proof {
        assert(base@.take(base.len() as int) =~= base@) by {
        }
    }
    // `p` is one past the last dot, or 0 where there is none
    let ghost lp = last_dot(base@);
    proof {
        if p > 0 {
            assert(base@.take(p as int).last() == '.');
            assert(lp == Some((p - 1) as int));
        } else {
            assert(base@.take(0) =~= Seq::<char>::empty());
            assert(lp is None);
        }
    }
    if p > 1 && p < base.len() {
        let dot = p - 1;
        let mut stem: Vec<char> = Vec::new();
        let mut ext: Vec<char> = Vec::new();
        let mut i: usize = 0;
        while i < base.len()
            invariant
                i <= base.len(),
                dot < base.len(),
                stem@ == base@.take(if i < dot { i as int } else { dot as int }),
                ext@ == (if i <= dot { Seq::<char>::empty() } else { base@.subrange(dot as int, i as int) }),
            decreases base.len() - i,
        {
            if i < dot {
                stem.push(base[i]);
                proof {
                    assert(base@.take(i as int).push(base@[i as int]) =~= base@.take(i + 1));
                }
            } else {
                ext.push(base[i]);
                proof {
                    if i == dot {
                        assert(Seq::<char>::empty().push(base@[i as int]) =~= base@.subrange(
                            dot as int,
                            i + 1,
                        ));
                    } else {
                        assert(base@.subrange(dot as int, i as int).push(base@[i as int])
                            =~= base@.subrange(dot as int, i + 1));
                    }
                }
            }
            i = i + 1;
        }
        proof {
            assert(base@.subrange(dot as int, base.len() as int) =~= base@.skip(dot as int));
        }
        (stem, ext)
    } else {
        (base.clone(), Vec::new())
    }
}

impl ImmichApp {
    /// Gives every job an output file name: its base name, unless another
    /// job in the same folder (compared in lower case) has taken it; then the
    /// base name's stem with `_` and the asset id, then with `-2`, `-3`, ...
    /// after the id, keeping the extension.
    pub fn assign_output_names(jobs: Vec<DownloadJob>, base_names: Vec<String>) -> (out: Vec<
        DownloadJob,
    >)
        requires
            base_names.len() == jobs.len(),
        ensures
            named_jobs(out@, jobs@, base_names@.map_values(|s: String| s@)),
    {
        let ghost bases = base_names@.map_values(|s: String| s@);
        let mut out: Vec<DownloadJob> = Vec::new();
        let mut used: Vec<String> = Vec::new();
        let mut i: usize = 0;
        while i < jobs.len()
            invariant
                i <= jobs.len(),
                base_names.len() == jobs.len(),
                bases == base_names@.map_values(|s: String| s@),
                out.len() == i,
                used.len() == i,
                forall|a: int| 0 <= a < i ==> (#[trigger] used[a])@ == named_keys(jobs@.take(i as int), bases.take(i as int))[a],
                named_keys(jobs@.take(i as int), bases.take(i as int)).len() == i,
                forall|a: int|
                    0 <= a < i ==> same_but_name(#[trigger] out[a], jobs[a]) && out[a].output_file_name@
                        == assigned_name(jobs@, bases, a),
            decreases jobs.len() - i,
        {
            let ghost used_v = named_keys(jobs@.take(i as int), bases.take(i as int));
            let job = jobs[i].duplicate();
            let base = chars_of(base_names[i].as_str());
            assert(base@ == bases[i as int]);
            let (stem, ext) = split_name(&base);
            let folder = to_lowercase(job.folder_name.as_str());
            let mut k: u64 = 0;
            let mut name = candidate(&base, &stem, &ext, job.asset.id.as_str(), 0);
            let mut key: String = {
                let lname = to_lowercase(name.as_str());
                let mut v: Vec<char> = Vec::new();
                push_str_chars(&mut v, folder.as_str());
                v.push('\\');
                push_str_chars(&mut v, lname.as_str());
                proof {
                    assert(v@ =~= path_key(job.folder_name@, name@));
                }
                string_of(&v)
            };
            proof {
                assert forall|x: Seq<char>| used_v.contains(x) <==> exists|a: int|
                    0 <= a < used.len() && (#[trigger] used[a])@ == x by {
                    if used_v.contains(x) {
                        let a = choose|a: int| 0 <= a < used_v.len() && used_v[a] == x;
                        assert(used[a]@ == x);
                    }
                }
            }
            while (k as usize) < used.len() && contains_text(&used, &key)
                invariant
                    k <= used.len(),
                    used.len() == i,
                    i < jobs.len(),
                    used_v.len() == i,
                    base@ == bases[i as int],
                    stem@ == stem_of(base@),
                    ext@ == ext_of(base@),
                    job == jobs[i as int],
                    folder@ == lowercase(job.folder_name@),
                    name@ == candidate_name(base@, job.asset.id@, k as nat),
                    key@ == cand_key(job, base@, k as nat),
                    forall|x: Seq<char>| used_v.contains(x) <==> exists|a: int|
                        0 <= a < used.len() && (#[trigger] used[a])@ == x,
                    chosen_suffix(used_v, job, base@, 0) == chosen_suffix(used_v, job, base@, k as nat),
                decreases used.len() - k,
            {
                k = k + 1;
                name = candidate(&base, &stem, &ext, job.asset.id.as_str(), k);
                let lname = to_lowercase(name.as_str());
                let mut v: Vec<char> = Vec::new();
                push_str_chars(&mut v, folder.as_str());
                v.push('\\');
                push_str_chars(&mut v, lname.as_str());
                proof {
                    assert(v@ =~= path_key(job.folder_name@, name@));
                }
                key = string_of(&v);
            }
            proof {
                assert(chosen_suffix(used_v, job, base@, k as nat) == k);
                assert(jobs@.take(i + 1).drop_last() =~= jobs@.take(i as int));
                assert(bases.take(i + 1).take(i as int) =~= bases.take(i as int));
                assert(jobs@.take(i + 1).last() == job);
                assert(bases.take(i + 1)[i as int] == bases[i as int]);
            }
            let mut named = job;
            named.output_file_name = name;
            out.push(named);
            used.push(key);
            i = i + 1;
        }
        out
    }

    /// Makes the download queue free of repeated entries: one job per asset
    /// and folder (as `deduplicate_jobs` chooses it), each with an output
    /// file name that no other job in its folder uses.
    pub fn deduplicate_queue_jobs(jobs: Vec<DownloadJob>) -> (out: Vec<DownloadJob>)
        ensures
            exists|bases: Seq<Seq<char>>|
                #[trigger] valid_base_names(dedup_spec(jobs@), bases) && named_jobs(
                    out@,
                    dedup_spec(jobs@),
                    bases,
                ),
    {
        let kept = Self::deduplicate_jobs(jobs);
        let mut bases: Vec<String> = Vec::new();
        let ghost mut names: Seq<Seq<char>> = Seq::empty();
        let mut i: usize = 0;
        while i < kept.len()
            invariant
                i <= kept.len(),
                bases.len() == i,
                names.len() == i,
                forall|a: int|
                    0 <= a < i ==> file_name_ok(kept[a].asset, #[trigger] names[a]) && bases[a]@
                        == sanitized(names[a]),
            decreases kept.len() - i,
        {
            let name = Self::asset_file_name(&kept[i].asset);
            let safe = Self::sanitize_file_name(name.as_str());
            bases.push(safe);
            proof {
                names = names.push(name@);
            }
            i = i + 1;
        }
        let ghost bs = bases@.map_values(|s: String| s@);
        proof {
            assert(bs.len() == dedup_spec(jobs@).len());
        }
        let out = Self::assign_output_names(kept, bases);
        proof {
            assert forall|a: int| 0 <= a < bs.len() implies base_name_ok(
                dedup_spec(jobs@)[a].asset,
                #[trigger] bs[a],
            ) by {
                assert(bs[a] == bases[a]@);
                assert(file_name_ok(dedup_spec(jobs@)[a].asset, names[a]));
            }
            assert(bs.len() == dedup_spec(jobs@).len());
            assert(valid_base_names(dedup_spec(jobs@), bs));
        }
        out
    }
}

} // verus!
