//! Files that exist already: comparing them one by one, marking which to
//! overwrite with the Immich original, and starting the overwrite.

use vstd::prelude::*;
use crate::connection::{api_key_spec, base_url_spec};
use crate::model::{ConflictItem, DownloadJob, Progress};
use crate::state::ImmichApp;
use crate::text::{decimal, owned, push_decimal, push_str_chars, string_of};

verus! {

/// The Immich original is known to be larger than the local file.
pub open spec fn remote_larger(item: ConflictItem) -> bool {
    match item.remote_size {
        Some(size) => size > item.local_size,
        None => false,
    }
}

/// Which conflicting files an overwrite takes.
#[derive(PartialEq, Eq, Structural, Clone, Copy, Debug)]
pub enum OverwriteChoice {
    /// Every conflicting file.
    All,
    /// The files marked for overwriting.
    Selected,
    /// The files whose Immich original is known to be larger.
    Larger,
}

/// Whether an overwrite choice takes the item.
pub open spec fn takes(choice: OverwriteChoice, item: ConflictItem) -> bool {
    match choice {
        OverwriteChoice::All => true,
        OverwriteChoice::Selected => item.selected,
        OverwriteChoice::Larger => remote_larger(item),
    }
}

/// The jobs of the items an overwrite choice takes, in order.
pub open spec fn chosen_jobs(items: Seq<ConflictItem>, choice: OverwriteChoice) -> Seq<DownloadJob>
    decreases items.len(),
{
    if items.len() == 0 {
        Seq::empty()
    } else if takes(choice, items.last()) {
        chosen_jobs(items.drop_last(), choice).push(items.last().job)
    } else {
        chosen_jobs(items.drop_last(), choice)
    }
}

/// The number of items marked for overwriting.
pub open spec fn marked_count(items: Seq<ConflictItem>) -> nat
    decreases items.len(),
{
    if items.len() == 0 {
        0
    } else {
        marked_count(items.drop_last()) + if items.last().selected {
            1nat
        } else {
            0nat
        }
    }
}

/// The Immich original's size is known and above the local file's.
pub open spec fn known_larger(item: ConflictItem) -> bool {
    item.remote_size matches Some(r) && r > item.local_size
}

/// Some item that is marked has the job `j`.
pub open spec fn marked_item_with(items: Seq<ConflictItem>, j: DownloadJob) -> bool {
    exists|i: int| 0 <= i < items.len() && (#[trigger] items[i]).selected && items[i].job == j
}

/// Some item whose Immich original is known to be larger has the job `j`.
pub open spec fn larger_item_with(items: Seq<ConflictItem>, j: DownloadJob) -> bool {
    exists|i: int| 0 <= i < items.len() && known_larger(#[trigger] items[i]) && items[i].job == j
}

/// What each overwrite choice takes: all of them every item's job, in
/// order; the marked ones exactly the jobs of marked items; the larger ones
/// exactly the jobs of items whose Immich original is known to be larger
/// than the local file, whatever their marks.
pub proof fn lemma_overwrite_choices(items: Seq<ConflictItem>)
    ensures
        chosen_jobs(items, OverwriteChoice::All) == Seq::new(items.len(), |i: int| items[i].job),
        forall|k: int|
            0 <= k < chosen_jobs(items, OverwriteChoice::Selected).len() ==> marked_item_with(
                items,
                #[trigger] chosen_jobs(items, OverwriteChoice::Selected)[k],
            ),
        forall|i: int| #![trigger items[i]]
            0 <= i < items.len() && items[i].selected ==> chosen_jobs(
                items,
                OverwriteChoice::Selected,
            ).contains(items[i].job),
        chosen_jobs(items, OverwriteChoice::Selected).len() == marked_count(items),
        forall|k: int|
            0 <= k < chosen_jobs(items, OverwriteChoice::Larger).len() ==> larger_item_with(
                items,
                #[trigger] chosen_jobs(items, OverwriteChoice::Larger)[k],
            ),
        forall|i: int| #![trigger items[i]]
            0 <= i < items.len() && known_larger(items[i]) ==> chosen_jobs(
                items,
                OverwriteChoice::Larger,
            ).contains(items[i].job),
    decreases items.len(),
{
    if items.len() == 0 {
        assert(chosen_jobs(items, OverwriteChoice::All) =~= Seq::new(items.len(), |i: int| items[i].job));
    } else {
        let p = items.drop_last();
        let x = items.last();
        let l = items.len() - 1;
        assert(items[l] == x);
        lemma_overwrite_choices(p);
        assert(chosen_jobs(items, OverwriteChoice::All) =~= Seq::new(items.len(), |i: int| items[i].job)) by {
            assert(chosen_jobs(p, OverwriteChoice::All) =~= Seq::new(p.len(), |i: int| p[i].job));
            assert forall|i: int| 0 <= i < p.len() implies p[i] == items[i] by {}
        }
        let s = chosen_jobs(items, OverwriteChoice::Selected);
        let sp = chosen_jobs(p, OverwriteChoice::Selected);
        assert forall|k: int| 0 <= k < s.len() implies marked_item_with(items, #[trigger] s[k]) by {
            if k < sp.len() {
                assert(s[k] == sp[k]);
                assert(marked_item_with(p, sp[k]));
                let i = choose|i: int| 0 <= i < p.len() && (#[trigger] p[i]).selected && p[i].job == sp[k];
                assert(items[i] == p[i]);
            } else {
                assert(s[k] == x.job);
            }
        }
        assert forall|i: int| #![trigger items[i]] 0 <= i < items.len() && items[i].selected implies s.contains(
            items[i].job,
        ) by {
            if i < p.len() {
                assert(p[i] == items[i]);
                let k = choose|k: int| 0 <= k < sp.len() && sp[k] == p[i].job;
                assert(s[k] == sp[k]);
            } else {
                assert(s[s.len() - 1] == x.job);
            }
        }
        let g = chosen_jobs(items, OverwriteChoice::Larger);
        let gp = chosen_jobs(p, OverwriteChoice::Larger);
        assert forall|k: int| 0 <= k < g.len() implies larger_item_with(items, #[trigger] g[k]) by {
            if k < gp.len() {
                assert(g[k] == gp[k]);
                assert(larger_item_with(p, gp[k]));
                let i = choose|i: int| 0 <= i < p.len() && known_larger(#[trigger] p[i]) && p[i].job == gp[k];
                assert(items[i] == p[i]);
            } else {
                assert(g[k] == x.job);
            }
        }
        assert forall|i: int| #![trigger items[i]] 0 <= i < items.len() && known_larger(items[i]) implies g.contains(
            items[i].job,
        ) by {
            if i < p.len() {
                assert(p[i] == items[i]);
                let k = choose|k: int| 0 <= k < gp.len() && gp[k] == p[i].job;
                assert(g[k] == gp[k]);
            } else {
                assert(g[g.len() - 1] == x.job);
            }
        }
    }
}

/// The larger files an overwrite takes do not depend on the marks: two
/// lists that differ only in their marks give the same jobs.
pub proof fn lemma_larger_ignores_marks(a: Seq<ConflictItem>, b: Seq<ConflictItem>)
    requires
        a.len() == b.len(),
        forall|i: int| #![trigger a[i], b[i]]
            0 <= i < a.len() ==> a[i].job == b[i].job && a[i].local_size == b[i].local_size
                && a[i].remote_size == b[i].remote_size,
    ensures
        chosen_jobs(a, OverwriteChoice::Larger) == chosen_jobs(b, OverwriteChoice::Larger),
    decreases a.len(),
{
    if a.len() > 0 {
        let l = a.len() - 1;
        assert(a[l].job == b[l].job && a[l].local_size == b[l].local_size && a[l].remote_size == b[l].remote_size);
        let pa = a.drop_last();
        let pb = b.drop_last();
        assert forall|i: int| #![trigger pa[i], pb[i]] 0 <= i < pa.len() implies pa[i].job == pb[i].job
            && pa[i].local_size == pb[i].local_size && pa[i].remote_size == pb[i].remote_size by {
            assert(pa[i] == a[i] && pb[i] == b[i]);
        }
        lemma_larger_ignores_marks(pa, pb);
        assert(known_larger(a.last()) == known_larger(b.last()));
    }
}

/// A key or button of the comparison window.
#[derive(PartialEq, Eq, Structural, Clone, Copy, Debug)]
pub enum ConflictCommand {
    /// Right arrow, `N` or "next": the next file.
    Next,
    /// Left arrow or "previous": the previous file.
    Previous,
    /// Space: flip the mark of the file shown.
    Toggle,
    /// Keep the local file shown.
    KeepLocal,
    /// Take the Immich original of the file shown.
    KeepRemote,
    /// Mark the file shown exactly where its Immich original is larger.
    LargerHere,
    /// Mark every file exactly where its Immich original is larger.
    LargerAll,
}

/// The item with its mark set to `b`.
pub open spec fn with_mark(item: ConflictItem, b: bool) -> ConflictItem {
    ConflictItem { selected: b, ..item }
}

/// The position a button acts on: the file shown, or the last one where
/// the position is past the end.
pub open spec fn shown_index(len: int, index: int) -> int {
    if index < len {
        index
    } else if len > 0 {
        len - 1
    } else {
        0
    }
}

/// The list with the mark at `i` set to `b` (unchanged where `i` is out of
/// range).
pub open spec fn marked_at(items: Seq<ConflictItem>, i: int, b: bool) -> Seq<ConflictItem> {
    if 0 <= i < items.len() {
        items.update(i, with_mark(items[i], b))
    } else {
        items
    }
}

/// What one key or button does to the list and the position shown.
pub open spec fn conflict_step(items: Seq<ConflictItem>, index: int, c: ConflictCommand) -> (
    Seq<ConflictItem>,
    int,
) {
    let cur = shown_index(items.len() as int, index);
    match c {
        ConflictCommand::Next => if index + 1 < items.len() {
            (items, index + 1)
        } else {
            (items, index)
        },
        ConflictCommand::Previous => if index > 0 {
            (items, index - 1)
        } else {
            (items, index)
        },
        ConflictCommand::Toggle => if 0 <= index < items.len() {
            (marked_at(items, index, !items[index].selected), index)
        } else {
            (items, index)
        },
        ConflictCommand::KeepLocal => (marked_at(items, cur, false), index),
        ConflictCommand::KeepRemote => (marked_at(items, cur, true), index),
        ConflictCommand::LargerHere => if 0 <= cur < items.len() {
            (marked_at(items, cur, remote_larger(items[cur])), index)
        } else {
            (items, index)
        },
        ConflictCommand::LargerAll => (
            items.map_values(|it: ConflictItem| with_mark(it, remote_larger(it))),
            index,
        ),
    }
}

/// The list and position after a series of keys and buttons.
pub open spec fn conflict_run(items: Seq<ConflictItem>, index: int, cmds: Seq<ConflictCommand>) -> (
    Seq<ConflictItem>,
    int,
)
    decreases cmds.len(),
{
    if cmds.len() == 0 {
        (items, index)
    } else {
        let before = conflict_run(items, index, cmds.drop_last());
        conflict_step(before.0, before.1, cmds.last())
    }
}

/// Whatever keys and buttons of the comparison window are used, in any
/// order: the position shown stays within the list, the list keeps its
/// length, and every entry keeps its job and sizes (only marks change).
pub proof fn lemma_conflict_commands_stay_in_list(
    items: Seq<ConflictItem>,
    index: int,
    cmds: Seq<ConflictCommand>,
)
    requires
        0 <= index < items.len(),
    ensures
        0 <= conflict_run(items, index, cmds).1 < items.len(),
        conflict_run(items, index, cmds).0.len() == items.len(),
        forall|i: int|
            0 <= i < items.len() ==> (#[trigger] conflict_run(items, index, cmds).0[i]).job
                == items[i].job && conflict_run(items, index, cmds).0[i].local_size
                == items[i].local_size && conflict_run(items, index, cmds).0[i].remote_size
                == items[i].remote_size,
    decreases cmds.len(),
{
    if cmds.len() > 0 {
        lemma_conflict_commands_stay_in_list(items, index, cmds.drop_last());
    }
}

/// The key of the preview shown: the asset id, `:`, the position.
pub open spec fn preview_key(id: Seq<char>, index: usize) -> Seq<char> {
    id + ":"@ + decimal(index as nat)
}

/// Why an overwrite cannot start, checked in this order.
pub open spec fn overwrite_refusal(app: ImmichApp, jobs: Seq<DownloadJob>) -> Option<Seq<char>> {
    if jobs.len() == 0 {
        Some("Keine Dateien zum Überschreiben ausgewählt."@)
    } else if app.download_running {
        Some("Ein Download läuft bereits."@)
    } else if base_url_spec(app.server@) is Err {
        Some(base_url_spec(app.server@)->Err_0)
    } else if api_key_spec(app.api_key@) is Err {
        Some(api_key_spec(app.api_key@)->Err_0)
    } else {
        None
    }
}

/// What an overwrite choice leads to: where it takes no file, a message and
/// a closed comparison window; otherwise the overwrite starts with the files it takes,
/// or its refusal shows in the status line.
pub open spec fn overwrite_outcome(
    o: ImmichApp,
    n: ImmichApp,
    c: OverwriteChoice,
    r: Option<OverwriteRequest>,
) -> bool {
    let jobs = chosen_jobs(o.conflicts@, c);
    if jobs.len() == 0 {
        &&& r is None
        &&& n == (ImmichApp { conflict_popup: false, status: n.status, ..o })
        &&& n.status@ == (if o.english {
            "No Immich file could be confirmed as larger than the existing file."@
        } else {
            "Keine sicher ermittelte Immich-Datei ist größer als die vorhandene Datei."@
        })
    } else {
        match overwrite_refusal(o, jobs) {
            Some(msg) => {
                &&& r is None
                &&& n == (ImmichApp { status: n.status, ..o })
                &&& n.status@ == (if o.english {
                    "Error: "@
                } else {
                    "Fehler: "@
                }) + msg
            },
            None => {
                &&& r is Some
                &&& r->0.jobs@ == jobs
                &&& n.download_running
                &&& !n.conflict_popup
                &&& n.download_total == jobs.len()
            },
        }
    }
}

/// What an overwrite works from.
#[derive(Debug)]
pub struct OverwriteRequest {
    pub base: String,
    pub api_key: String,
    pub target_dir: String,
    pub parallel_downloads: usize,
    pub jobs: Vec<DownloadJob>,
}

/// Whether the Immich original is known to be larger than the local file.
pub fn is_remote_larger(item: &ConflictItem) -> (b: bool)
    ensures
        b == remote_larger(*item),
{
    match item.remote_size {
        Some(size) => size > item.local_size,
        None => false,
    }
}

impl ImmichApp {
    /// The jobs of the conflicting files an overwrite choice takes.
    pub fn overwrite_jobs(&self, choice: OverwriteChoice) -> (out: Vec<DownloadJob>)
        ensures
            out@ == chosen_jobs(self.conflicts@, choice),
    {
        let mut out: Vec<DownloadJob> = Vec::new();
        let mut i: usize = 0;
        while i < self.conflicts.len()
            invariant
                i <= self.conflicts.len(),
                out@ == chosen_jobs(self.conflicts@.take(i as int), choice),
            decreases self.conflicts.len() - i,
        {
            proof {
                assert(self.conflicts@.take(i + 1).drop_last() =~= self.conflicts@.take(i as int));
            }
            let item = &self.conflicts[i];
            let take = match choice {
                OverwriteChoice::All => true,
                OverwriteChoice::Selected => item.selected,
                OverwriteChoice::Larger => is_remote_larger(item),
            };
            if take {
                out.push(item.job.duplicate());
            }
            i = i + 1;
        }
        proof {
            assert(self.conflicts@.take(self.conflicts.len() as int) =~= self.conflicts@);
        }
        out
    }

    /// The number of conflicting files marked for overwriting.
    pub fn marked_conflict_count(&self) -> (n: usize)
        ensures
            n == marked_count(self.conflicts@),
    {
        let mut n: usize = 0;
        let mut i: usize = 0;
        while i < self.conflicts.len()
            invariant
                i <= self.conflicts.len(),
                n <= i,
                n == marked_count(self.conflicts@.take(i as int)),
            decreases self.conflicts.len() - i,
        {
            proof {
                assert(self.conflicts@.take(i + 1).drop_last() =~= self.conflicts@.take(i as int));
            }
            if self.conflicts[i].selected {
                n = n + 1;
            }
            i = i + 1;
        }
        proof {
            assert(self.conflicts@.take(self.conflicts.len() as int) =~= self.conflicts@);
        }
        n
    }

    /// Marks one conflicting file for overwriting (`overwrite`) or keeping.
    pub fn set_conflict_mark(&mut self, index: usize, overwrite: bool)
        ensures
            final(self).conflicts.len() == old(self).conflicts.len(),
            forall|i: int|
                0 <= i < final(self).conflicts.len() ==> (#[trigger] final(self).conflicts[i]).job
                    == old(self).conflicts[i].job && final(self).conflicts[i].local_size == old(
                    self,
                ).conflicts[i].local_size && final(self).conflicts[i].remote_size == old(
                    self,
                ).conflicts[i].remote_size && final(self).conflicts[i].selected == (if i == index {
                    overwrite
                } else {
                    old(self).conflicts[i].selected
                }),
            *final(self) == (ImmichApp { conflicts: final(self).conflicts, ..*old(self) }),
    {
        if index < self.conflicts.len() {
            let item = ConflictItem {
                job: self.conflicts[index].job.duplicate(),
                selected: overwrite,
                local_size: self.conflicts[index].local_size,
                remote_size: self.conflicts[index].remote_size,
            };
            self.conflicts.set(index, item);
        }
    }

    /// Flips the mark of the conflicting file shown.
    pub fn toggle_current_conflict(&mut self)
        ensures
            final(self).conflicts.len() == old(self).conflicts.len(),
            forall|i: int|
                0 <= i < final(self).conflicts.len() ==> (#[trigger] final(self).conflicts[i]).job
                    == old(self).conflicts[i].job && final(self).conflicts[i].local_size == old(
                    self,
                ).conflicts[i].local_size && final(self).conflicts[i].remote_size == old(
                    self,
                ).conflicts[i].remote_size && final(self).conflicts[i].selected == (if i
                    == old(self).conflict_index {
                    !old(self).conflicts[i].selected
                } else {
                    old(self).conflicts[i].selected
                }),
            *final(self) == (ImmichApp { conflicts: final(self).conflicts, ..*old(self) }),
    {
        let index = self.conflict_index;
        if index < self.conflicts.len() {
            let flipped = !self.conflicts[index].selected;
            self.set_conflict_mark(index, flipped);
        }
    }

    /// Marks the conflicting file at `index` for overwriting exactly where its
    /// Immich original is known to be larger.
    pub fn mark_conflict_if_larger(&mut self, index: usize)
        ensures
            final(self).conflicts.len() == old(self).conflicts.len(),
            forall|i: int|
                0 <= i < final(self).conflicts.len() ==> (#[trigger] final(self).conflicts[i]).job
                    == old(self).conflicts[i].job && final(self).conflicts[i].local_size == old(
                    self,
                ).conflicts[i].local_size && final(self).conflicts[i].remote_size == old(
                    self,
                ).conflicts[i].remote_size && final(self).conflicts[i].selected == (if i == index {
                    remote_larger(old(self).conflicts[i])
                } else {
                    old(self).conflicts[i].selected
                }),
            *final(self) == (ImmichApp { conflicts: final(self).conflicts, ..*old(self) }),
    {
        if index < self.conflicts.len() {
            let larger = is_remote_larger(&self.conflicts[index]);
            self.set_conflict_mark(index, larger);
        }
    }

    /// Marks every conflicting file for overwriting exactly where its Immich
    /// original is known to be larger.
    pub fn mark_all_larger_conflicts(&mut self)
        ensures
            final(self).conflicts.len() == old(self).conflicts.len(),
            forall|i: int|
                0 <= i < final(self).conflicts.len() ==> (#[trigger] final(self).conflicts[i]).job
                    == old(self).conflicts[i].job && final(self).conflicts[i].local_size == old(
                    self,
                ).conflicts[i].local_size && final(self).conflicts[i].remote_size == old(
                    self,
                ).conflicts[i].remote_size && final(self).conflicts[i].selected == remote_larger(
                    old(self).conflicts[i],
                ),
            *final(self) == (ImmichApp { conflicts: final(self).conflicts, ..*old(self) }),
    {
        let mut i: usize = 0;
        while i < self.conflicts.len()
            invariant
                i <= self.conflicts.len(),
                self.conflicts.len() == old(self).conflicts.len(),
                forall|a: int|
                    0 <= a < self.conflicts.len() ==> (#[trigger] self.conflicts[a]).job == old(
                        self,
                    ).conflicts[a].job && self.conflicts[a].local_size == old(self).conflicts[a].local_size
                        && self.conflicts[a].remote_size == old(self).conflicts[a].remote_size
                        && self.conflicts[a].selected == (if a < i {
                        remote_larger(old(self).conflicts[a])
                    } else {
                        old(self).conflicts[a].selected
                    }),
                *self == (ImmichApp { conflicts: self.conflicts, ..*old(self) }),
            decreases self.conflicts.len() - i,
        {
            self.mark_conflict_if_larger(i);
            i = i + 1;
        }
    }

    /// Shows the next conflicting file, where there is one.
    pub fn next_conflict(&mut self)
        ensures
            old(self).conflict_index + 1 < old(self).conflicts.len() ==> *final(self) == (
            ImmichApp {
                conflict_index: (old(self).conflict_index + 1) as usize,
                conflict_preview_key: final(self).conflict_preview_key,
                ..*old(self)
            }) && final(self).conflict_preview_key@.len() == 0,
            !(old(self).conflict_index + 1 < old(self).conflicts.len()) ==> *final(self)
                == *old(self),
            final(self).conflicts == old(self).conflicts,
            old(self).conflict_index < old(self).conflicts.len() ==> final(self).conflict_index
                < final(self).conflicts.len(),
    {
        if self.conflict_index < self.conflicts.len() && self.conflicts.len() - self.conflict_index
            > 1 {
            self.conflict_index = self.conflict_index + 1;
            self.conflict_preview_key = String::new();
        }
    }

    /// Shows the previous conflicting file, where there is one.
    pub fn previous_conflict(&mut self)
        ensures
            old(self).conflict_index > 0 ==> *final(self) == (ImmichApp {
                conflict_index: (old(self).conflict_index - 1) as usize,
                conflict_preview_key: final(self).conflict_preview_key,
                ..*old(self)
            }) && final(self).conflict_preview_key@.len() == 0,
            old(self).conflict_index == 0 ==> *final(self) == *old(self),
            final(self).conflicts == old(self).conflicts,
            old(self).conflict_index < old(self).conflicts.len() ==> final(self).conflict_index
                < final(self).conflicts.len(),
    {
        if self.conflict_index > 0 {
            self.conflict_index = self.conflict_index - 1;
            self.conflict_preview_key = String::new();
        }
    }

    /// Carries out one key or button of the comparison window; moving to
    /// another file forgets which file the previews are of.
    #[verifier::spinoff_prover]
    #[verifier::rlimit(60)]
    pub fn apply_conflict_command(&mut self, c: ConflictCommand)
        ensures
            final(self).conflicts@ == conflict_step(
                old(self).conflicts@,
                old(self).conflict_index as int,
                c,
            ).0,
            final(self).conflict_index == conflict_step(
                old(self).conflicts@,
                old(self).conflict_index as int,
                c,
            ).1,
            final(self).conflict_index != old(self).conflict_index
                ==> final(self).conflict_preview_key@.len() == 0,
            final(self).conflict_index == old(self).conflict_index
                ==> final(self).conflict_preview_key == old(self).conflict_preview_key,
            *final(self) == (ImmichApp {
                conflicts: final(self).conflicts,
                conflict_index: final(self).conflict_index,
                conflict_preview_key: final(self).conflict_preview_key,
                ..*old(self)
            }),
    {
        let ghost items = self.conflicts@;
        match c {
            ConflictCommand::Next => self.next_conflict(),
            ConflictCommand::Previous => self.previous_conflict(),
            ConflictCommand::Toggle => {
                self.toggle_current_conflict();
                proof {
                    if (self.conflict_index as int) < items.len() {
                        assert(self.conflicts@ =~= marked_at(
                            items,
                            self.conflict_index as int,
                            !items[self.conflict_index as int].selected,
                        ));
                    } else {
                        assert(self.conflicts@ =~= items);
                    }
                }
            },
            ConflictCommand::KeepLocal => {
                let i = self.current_conflict_index();
                self.set_conflict_mark(i, false);
                proof {
                    assert(self.conflicts@ =~= marked_at(items, i as int, false));
                }
            },
            ConflictCommand::KeepRemote => {
                let i = self.current_conflict_index();
                self.set_conflict_mark(i, true);
                proof {
                    assert(self.conflicts@ =~= marked_at(items, i as int, true));
                }
            },
            ConflictCommand::LargerHere => {
                let i = self.current_conflict_index();
                self.mark_conflict_if_larger(i);
                proof {
                    if (i as int) < items.len() {
                        assert(self.conflicts@ =~= marked_at(
                            items,
                            i as int,
                            remote_larger(items[i as int]),
                        ));
                    } else {
                        assert(self.conflicts@ =~= items);
                    }
                }
            },
            ConflictCommand::LargerAll => {
                self.mark_all_larger_conflicts();
                proof {
                    assert(self.conflicts@ =~= items.map_values(
                        |it: ConflictItem| with_mark(it, remote_larger(it)),
                    ));
                }
            },
        }
    }

    /// The position of the conflicting file shown, within the list.
    pub fn current_conflict_index(&self) -> (i: usize)
        ensures
            i == (if self.conflict_index < self.conflicts.len() {
                self.conflict_index as int
            } else if self.conflicts.len() > 0 {
                self.conflicts.len() - 1
            } else {
                0
            }),
    {
        let last = if self.conflicts.len() > 0 {
            self.conflicts.len() - 1
        } else {
            0
        };
        if self.conflict_index < last {
            self.conflict_index
        } else {
            last
        }
    }

    /// Starts loading the previews of the conflicting file shown, where they
    /// are not loaded yet: records which file the previews are of, forgets
    /// the old dimensions and hands back the item. Nothing happens where the
    /// previews are of this file already or no file is shown.
    pub fn begin_conflict_preview(&mut self) -> (r: Option<ConflictItem>)
        ensures
            old(self).conflict_index >= old(self).conflicts.len() ==> r is None && *final(self)
                == *old(self),
            old(self).conflict_index < old(self).conflicts.len() ==> {
                let item = old(self).conflicts[old(self).conflict_index as int];
                let key = preview_key(item.job.asset.id@, old(self).conflict_index);
                if old(self).conflict_preview_key@ == key {
                    r is None && *final(self) == *old(self)
                } else {
                    &&& r == Some(item)
                    &&& *final(self) == (ImmichApp {
                        conflict_preview_key: final(self).conflict_preview_key,
                        conflict_local_dims: None,
                        conflict_remote_dims: None,
                        ..*old(self)
                    })
                    &&& final(self).conflict_preview_key@ == key
                }
            },
    {
        if self.conflict_index >= self.conflicts.len() {
            return None;
        }
        let item = self.conflicts[self.conflict_index].duplicate();
        let mut v: Vec<char> = Vec::new();
        push_str_chars(&mut v, item.job.asset.id.as_str());
        push_str_chars(&mut v, ":");
        push_decimal(&mut v, self.conflict_index as u64);
        proof {
            assert(v@ =~= preview_key(item.job.asset.id@, self.conflict_index));
        }
        let key = string_of(&v);
        if key == self.conflict_preview_key {
            return None;
        }
        self.conflict_preview_key = key;
        self.conflict_local_dims = None;
        self.conflict_remote_dims = None;
        Some(item)
    }

    /// Starts overwriting the given files with their Immich originals:
    /// refuses with the reason where it cannot start (state unchanged), else
    /// closes the comparison window, marks a download running with zeroed counters and
    /// hands back what the overwrite works from.
    pub fn start_conflict_overwrite(&mut self, jobs: Vec<DownloadJob>) -> (r: Result<
        OverwriteRequest,
        String,
    >)
        ensures
            overwrite_refusal(*old(self), jobs@) matches Some(msg) ==> r is Err && r->Err_0@ == msg
                && *final(self) == *old(self),
            overwrite_refusal(*old(self), jobs@) is None ==> r is Ok && ({
                let req = r->Ok_0;
                let o = *old(self);
                &&& req.base@ == base_url_spec(o.server@)->Ok_0
                &&& req.api_key@ == api_key_spec(o.api_key@)->Ok_0
                &&& req.target_dir == o.target_dir
                &&& req.parallel_downloads == (if o.parallel_downloads > 1 {
                    o.parallel_downloads
                } else {
                    1
                })
                &&& req.jobs@ == jobs@
                &&& *final(self) == (ImmichApp {
                    download_running: true,
                    download_popup: true,
                    conflict_popup: false,
                    download_current: 0,
                    download_total: jobs.len(),
                    download_file: final(self).download_file,
                    download_downloaded: 0,
                    download_skipped: 0,
                    download_failed: 0,
                    download_active: 0,
                    progress: Progress { done: 0, total: 0 },
                    ..o
                })
                &&& final(self).download_file@ == "Vorhandene Dateien werden überschrieben ..."@
            }),
    {
        if jobs.len() == 0 {
            return Err(owned("Keine Dateien zum Überschreiben ausgewählt."));
        }
        if self.download_running {
            return Err(owned("Ein Download läuft bereits."));
        }
        let base = match self.base_url() {
            Ok(b) => b,
            Err(e) => {
                return Err(e);
            },
        };
        let api_key = match self.ensure_api_key() {
            Ok(k) => k,
            Err(e) => {
                return Err(e);
            },
        };
        let parallel = if self.parallel_downloads > 1 {
            self.parallel_downloads
        } else {
            1
        };
        self.download_running = true;
        self.download_popup = true;
        self.conflict_popup = false;
        self.download_current = 0;
        self.download_total = jobs.len();
        self.download_file = owned("Vorhandene Dateien werden überschrieben ...");
        self.download_downloaded = 0;
        self.download_skipped = 0;
        self.download_failed = 0;
        self.download_active = 0;
        self.progress = Progress { done: 0, total: 0 };
        Ok(
            OverwriteRequest {
                base,
                api_key,
                target_dir: self.target_dir.clone(),
                parallel_downloads: parallel,
                jobs,
            },
        )
    }

    /// Acts on the buttons of the comparison window: closing it, and an
    /// overwrite choice (see `overwrite_chosen`).
    pub fn resolve_conflicts(&mut self, close: bool, choice: Option<OverwriteChoice>) -> (r: Option<
        OverwriteRequest,
    >)
        ensures
            ({
                let closed = ImmichApp {
                    conflict_popup: if close {
                        false
                    } else {
                        old(self).conflict_popup
                    },
                    ..*old(self)
                };
                match choice {
                    None => r is None && *final(self) == closed,
                    Some(c) => overwrite_outcome(closed, *final(self), c, r),
                }
            }),
    {
        if close {
            self.conflict_popup = false;
        }
        match choice {
            Some(c) => self.overwrite_chosen(c),
            None => None,
        }
    }

    /// Overwrites the conflicting files a choice takes. A choice that takes
    /// no file says so in the status line and closes the comparison window; otherwise
    /// the overwrite starts, or its refusal goes to the status line.
    pub fn overwrite_chosen(&mut self, c: OverwriteChoice) -> (r: Option<OverwriteRequest>)
        ensures
            overwrite_outcome(*old(self), *final(self), c, r),
    {
        let jobs = self.overwrite_jobs(c);
        if jobs.len() == 0 {
            self.status = if self.english {
                owned("No Immich file could be confirmed as larger than the existing file.")
            } else {
                owned("Keine sicher ermittelte Immich-Datei ist größer als die vorhandene Datei.")
            };
            self.conflict_popup = false;
            return None;
        }
        match self.start_conflict_overwrite(jobs) {
            Ok(req) => Some(req),
            Err(e) => {
                let mut v: Vec<char> = Vec::new();
                push_str_chars(&mut v, if self.english { "Error: " } else { "Fehler: " });
                push_str_chars(&mut v, e.as_str());
                proof {
                    assert(v@ =~= (if self.english {
                        "Error: "@
                    } else {
                        "Fehler: "@
                    }) + e@);
                }
                self.status = string_of(&v);
                None
            },
        }
    }
}

} // verus!
