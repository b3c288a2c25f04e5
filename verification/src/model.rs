//! The selection model: the ordered list of achievement rows plus cursor,
//! sort and status state, with navigation and mutation operations, and the
//! diff/commit protocol that folds backend results back into the rows.

use vstd::prelude::*;

verus! {

use vstd::string::StringExecFns;
use crate::models::{
    AchievementInfo,
    AchievementItem,
    AchievementStatus,
    AppConfig,
    CommitOutcome,
    CommitResult,
    SortColumn,
    SortOrder,
    Status,
};
use crate::sort::{sort_spec, sort_items, lemma_sort_spec_len};
use crate::search::{fuzzy_spec, clamp_i64, trim_spec, fuzzy_score, str_trim_blank};
use crate::text::{lower_of, lowercase, dec_str, dec_string, str_eq};

/// Rows moved by one page step.
pub const PAGE_SIZE: usize = 10;

/// Cursor position after moving down one row, wrapping past the end.
pub open spec fn next_index(i: int, len: int) -> int
    recommends
        0 <= i < len,
{
    if i + 1 >= len {
        0
    } else {
        i + 1
    }
}

/// Cursor position after moving up one row, wrapping past the start.
pub open spec fn prev_index(i: int, len: int) -> int
    recommends
        0 <= i < len,
{
    if i > 0 {
        i - 1
    } else {
        len - 1
    }
}

/// `i` clamped into the valid cursor range of a non-empty list.
pub open spec fn clamped_index(i: int, len: int) -> int
    recommends
        len > 0,
{
    if i <= len - 1 {
        i
    } else {
        len - 1
    }
}

/// Cursor position after one page up, clamped at the top.
pub open spec fn page_up_index(i: int) -> int {
    if i >= PAGE_SIZE {
        i - PAGE_SIZE
    } else {
        0
    }
}

/// Cursor position after one page down, clamped at the bottom.
pub open spec fn page_down_index(i: int, len: int) -> int
    recommends
        0 <= i < len,
{
    if i + PAGE_SIZE <= len - 1 {
        i + PAGE_SIZE
    } else {
        len - 1
    }
}

/// Moving down from the last row wraps to the first; moving up from the
/// first wraps to the last.
pub proof fn lemma_navigation_wraps(len: int)
    requires
        len > 0,
    ensures
        next_index(len - 1, len) == 0,
        prev_index(0, len) == len - 1,
{
}

/// The row a freshly fetched achievement becomes: the desired state starts
/// out agreeing with the confirmed one.
pub open spec fn item_of(inf: AchievementInfo) -> AchievementItem {
    AchievementItem {
        name: inf.name,
        selected: inf.unlocked,
        unlocked: inf.unlocked,
        percentage: inf.percentage,
        status: AchievementStatus::Unchanged,
    }
}

/// The rows a fetched list becomes, in fetch order.
pub open spec fn items_of(infos: Seq<AchievementInfo>) -> Seq<AchievementItem> {
    infos.map_values(|inf: AchievementInfo| item_of(inf))
}

/// Every row with its desired state overwritten by `sel`.
pub open spec fn all_selected(s: Seq<AchievementItem>, sel: bool) -> Seq<AchievementItem> {
    s.map_values(|a: AchievementItem| AchievementItem { selected: sel, ..a })
}

/// The score a row's name earns against an already-lowercased query, as the
/// executable matcher reports it (clamped into `i64`).
pub open spec fn clamped_score(name: Seq<char>, q: Seq<char>) -> Option<int> {
    match fuzzy_spec(lower_of(name), q) {
        None => None,
        Some(s) => Some(clamp_i64(s)),
    }
}

/// The strictly-best-scoring row for query `q`, as an index/score pair; on a
/// tie the earlier row wins.
pub open spec fn best_match(items: Seq<AchievementItem>, q: Seq<char>) -> Option<(int, int)>
    decreases items.len(),
{
    if items.len() == 0 {
        None
    } else {
        let prev = best_match(items.drop_last(), q);
        match clamped_score(items.last().name@, q) {
            None => prev,
            Some(sc) => match prev {
                None => Some((items.len() - 1, sc)),
                Some(p) => if sc > p.1 {
                    Some((items.len() - 1, sc))
                } else {
                    Some(p)
                },
            },
        }
    }
}

proof fn lemma_best_match_in_range(items: Seq<AchievementItem>, q: Seq<char>)
    ensures
        best_match(items, q) matches Some(b) ==> 0 <= b.0 < items.len(),
    decreases items.len(),
{
    if items.len() > 0 {
        lemma_best_match_in_range(items.drop_last(), q);
    }
}

/// A row whose desired state is `target` but whose confirmed state is not:
/// it belongs in the commit partition that drives toward `target`.
pub open spec fn needs_commit(a: AchievementItem, target: bool) -> bool {
    a.selected == target && a.unlocked != target
}

/// The names of the rows in the partition driving toward `target`, in row
/// order: the set partition for `true`, the clear partition for `false`.
pub open spec fn delta_names(items: Seq<AchievementItem>, target: bool) -> Seq<Seq<char>> {
    items.filter(|a: AchievementItem| needs_commit(a, target)).map_values(
        |a: AchievementItem| a.name@,
    )
}

/// The views of a list of owned names.
pub open spec fn name_views(names: Seq<String>) -> Seq<Seq<char>> {
    names.map_values(|s: String| s@)
}

/// The first row carrying `name`, if any.
pub open spec fn find_by_name(items: Seq<AchievementItem>, name: Seq<char>) -> Option<int>
    decreases items.len(),
{
    if items.len() == 0 {
        None
    } else if items[0].name@ == name {
        Some(0int)
    } else {
        match find_by_name(items.drop_first(), name) {
            None => None,
            Some(j) => Some(j + 1),
        }
    }
}

/// Whether some row carries `name`.
pub open spec fn found_name(items: Seq<AchievementItem>, name: Seq<char>) -> bool {
    find_by_name(items, name) is Some
}

proof fn lemma_find_by_name_props(items: Seq<AchievementItem>, name: Seq<char>)
    ensures
        match find_by_name(items, name) {
            Some(j) => 0 <= j < items.len() && items[j].name@ == name && (forall|m: int|
                0 <= m < j ==> items[m].name@ != name),
            None => forall|m: int| 0 <= m < items.len() ==> items[m].name@ != name,
        },
    decreases items.len(),
{
    if items.len() > 0 && items[0].name@ != name {
        let sub = items.drop_first();
        lemma_find_by_name_props(sub, name);
        assert(forall|m: int| 0 <= m < sub.len() ==> sub[m] == items[m + 1]);
        match find_by_name(sub, name) {
            Some(j) => {
                assert forall|m: int| 0 <= m < j + 1 implies items[m].name@ != name by {
                    if m > 0 {
                        assert(sub[m - 1] == items[m]);
                    }
                }
            },
            None => {
                assert forall|m: int| 0 <= m < items.len() implies items[m].name@ != name by {
                    if m > 0 {
                        assert(sub[m - 1] == items[m]);
                    }
                }
            },
        }
    }
}

proof fn lemma_find_by_name_at(items: Seq<AchievementItem>, name: Seq<char>, j: int)
    requires
        0 <= j < items.len(),
        items[j].name@ == name,
        forall|m: int| 0 <= m < j ==> items[m].name@ != name,
    ensures
        find_by_name(items, name) == Some(j),
    decreases j,
{
    if j > 0 {
        let sub = items.drop_first();
        assert(forall|m: int| 0 <= m < sub.len() ==> sub[m] == items[m + 1]);
        assert(sub[j - 1].name@ == name);
        assert forall|m: int| 0 <= m < j - 1 implies sub[m].name@ != name by {
            assert(sub[m] == items[m + 1]);
        }
        lemma_find_by_name_at(sub, name, j - 1);
    }
}

proof fn lemma_find_by_name_none(items: Seq<AchievementItem>, name: Seq<char>)
    requires
        forall|m: int| 0 <= m < items.len() ==> items[m].name@ != name,
    ensures
        find_by_name(items, name) is None,
    decreases items.len(),
{
    if items.len() > 0 {
        let sub = items.drop_first();
        assert forall|m: int| 0 <= m < sub.len() implies sub[m].name@ != name by {
            assert(sub[m] == items[m + 1]);
        }
        lemma_find_by_name_none(sub, name);
    }
}

/// The row after the backend's verdict is folded in: on success the
/// confirmed state becomes `target`; on failure it is left untouched.
pub open spec fn apply_verdict_spec(a: AchievementItem, success: bool, target: bool) -> AchievementItem {
    if success {
        AchievementItem { unlocked: target, status: AchievementStatus::Success, ..a }
    } else {
        AchievementItem { status: AchievementStatus::Failed, ..a }
    }
}

/// Folds one verdict into the first row carrying `name`; rows the backend
/// names but the list lacks are ignored.
pub open spec fn mark_name(
    items: Seq<AchievementItem>,
    name: Seq<char>,
    success: bool,
    target: bool,
) -> Seq<AchievementItem> {
    match find_by_name(items, name) {
        None => items,
        Some(i) => items.update(i, apply_verdict_spec(items[i], success, target)),
    }
}

/// Folds a backend per-name verdict list into the rows, in verdict order.
pub open spec fn fold_verdicts(
    items: Seq<AchievementItem>,
    results: Seq<CommitResult>,
    target: bool,
) -> Seq<AchievementItem>
    decreases results.len(),
{
    if results.len() == 0 {
        items
    } else {
        fold_verdicts(
            mark_name(items, results[0].name@, results[0].success, target),
            results.drop_first(),
            target,
        )
    }
}

/// How many verdicts in the list report success for a row that exists.
pub open spec fn verdict_succ_count(
    items: Seq<AchievementItem>,
    results: Seq<CommitResult>,
    target: bool,
) -> int
    decreases results.len(),
{
    if results.len() == 0 {
        0
    } else {
        (if results[0].success && found_name(items, results[0].name@) {
            1int
        } else {
            0int
        }) + verdict_succ_count(
            mark_name(items, results[0].name@, results[0].success, target),
            results.drop_first(),
            target,
        )
    }
}

/// How many verdicts in the list report failure for a row that exists.
pub open spec fn verdict_fail_count(
    items: Seq<AchievementItem>,
    results: Seq<CommitResult>,
    target: bool,
) -> int
    decreases results.len(),
{
    if results.len() == 0 {
        0
    } else {
        (if !results[0].success && found_name(items, results[0].name@) {
            1int
        } else {
            0int
        }) + verdict_fail_count(
            mark_name(items, results[0].name@, results[0].success, target),
            results.drop_first(),
            target,
        )
    }
}

/// Folds a whole-partition failure into the rows: every named row is marked
/// failed and its confirmed state left untouched.
pub open spec fn fold_failure(items: Seq<AchievementItem>, names: Seq<Seq<char>>) -> Seq<
    AchievementItem,
>
    decreases names.len(),
{
    if names.len() == 0 {
        items
    } else {
        fold_failure(mark_name(items, names[0], false, false), names.drop_first())
    }
}

/// How many of the named rows a whole-partition failure marks.
pub open spec fn failure_count(items: Seq<AchievementItem>, names: Seq<Seq<char>>) -> int
    decreases names.len(),
{
    if names.len() == 0 {
        0
    } else {
        (if found_name(items, names[0]) {
            1int
        } else {
            0int
        }) + failure_count(mark_name(items, names[0], false, false), names.drop_first())
    }
}

/// The rows after one partition's outcome is folded in.
pub open spec fn outcome_items(
    items: Seq<AchievementItem>,
    outcome: Option<CommitOutcome>,
    names: Seq<Seq<char>>,
    target: bool,
) -> Seq<AchievementItem> {
    match outcome {
        None => items,
        Some(CommitOutcome::Completed(results)) => fold_verdicts(items, results@, target),
        Some(CommitOutcome::Failed(_)) => fold_failure(items, names),
    }
}

/// Successes one partition's outcome contributes.
pub open spec fn outcome_succ(
    items: Seq<AchievementItem>,
    outcome: Option<CommitOutcome>,
    target: bool,
) -> int {
    match outcome {
        None => 0,
        Some(CommitOutcome::Completed(results)) => verdict_succ_count(items, results@, target),
        Some(CommitOutcome::Failed(_)) => 0,
    }
}

/// Failures one partition's outcome contributes.
pub open spec fn outcome_fail(
    items: Seq<AchievementItem>,
    outcome: Option<CommitOutcome>,
    names: Seq<Seq<char>>,
    target: bool,
) -> int {
    match outcome {
        None => 0,
        Some(CommitOutcome::Completed(results)) => verdict_fail_count(items, results@, target),
        Some(CommitOutcome::Failed(_)) => failure_count(items, names),
    }
}

/// The rows after a whole commit pass: the set partition's outcome is
/// folded in first, then the clear partition's; both partitions are the
/// ones computed from the rows as they stood before the pass.
pub open spec fn process_result_items(
    pre: Seq<AchievementItem>,
    so: Option<CommitOutcome>,
    co: Option<CommitOutcome>,
) -> Seq<AchievementItem> {
    outcome_items(
        outcome_items(pre, so, delta_names(pre, true), true),
        co,
        delta_names(pre, false),
        false,
    )
}

/// Successes a whole commit pass reports.
pub open spec fn process_succ(
    pre: Seq<AchievementItem>,
    so: Option<CommitOutcome>,
    co: Option<CommitOutcome>,
) -> int {
    outcome_succ(pre, so, true) + outcome_succ(
        outcome_items(pre, so, delta_names(pre, true), true),
        co,
        false,
    )
}

/// Failures a whole commit pass reports.
pub open spec fn process_fail(
    pre: Seq<AchievementItem>,
    so: Option<CommitOutcome>,
    co: Option<CommitOutcome>,
) -> int {
    outcome_fail(pre, so, delta_names(pre, true), true) + outcome_fail(
        outcome_items(pre, so, delta_names(pre, true), true),
        co,
        delta_names(pre, false),
        false,
    )
}

/// The status line after a commit in which every touched row succeeded.
pub open spec fn success_message(s: int) -> Seq<char> {
    "✓ Successfully processed "@ + dec_str(s) + " achievement(s)"@
}

/// The status line after a commit in which some row failed.
pub open spec fn mixed_message(s: int, f: int) -> Seq<char> {
    "⚠ Processed: "@ + dec_str(s) + " success, "@ + dec_str(f) + " failed"@
}

/// A model in which every row's desired state matches its confirmed state
/// has nothing to commit: both partitions are empty.
pub proof fn lemma_synced_model_has_no_deltas(items: Seq<AchievementItem>)
    requires
        forall|i: int| 0 <= i < items.len() ==> (#[trigger] items[i]).selected == items[i].unlocked,
    ensures
        delta_names(items, true).len() == 0,
        delta_names(items, false).len() == 0,
    decreases items.len(),
{
    reveal(Seq::filter);
    if items.len() > 0 {
        let prefix = items.drop_last();
        assert(forall|i: int|
            0 <= i < prefix.len() ==> (#[trigger] prefix[i]).selected == prefix[i].unlocked) by {
            assert(forall|i: int| 0 <= i < prefix.len() ==> prefix[i] == items[i]);
        }
        lemma_synced_model_has_no_deltas(prefix);
        assert(items[items.len() - 1].selected == items[items.len() - 1].unlocked);
        assert(!needs_commit(items.last(), true));
        assert(!needs_commit(items.last(), false));
    }
}

/// A row whose desired and confirmed states disagree keeps its partition
/// non-empty, so a retry still reaches it.
pub proof fn lemma_unsynced_item_keeps_delta(items: Seq<AchievementItem>, i: int)
    requires
        0 <= i < items.len(),
        items[i].selected != items[i].unlocked,
    ensures
        delta_names(items, items[i].selected).len() > 0,
    decreases items.len(),
{
    reveal(Seq::filter);
    let target = items[i].selected;
    if i == items.len() - 1 {
        assert(needs_commit(items.last(), target));
    } else {
        let prefix = items.drop_last();
        lemma_unsynced_item_keeps_delta(prefix, i);
        assert(items.filter(|a: AchievementItem| needs_commit(a, target)).len() >= prefix.filter(
            |a: AchievementItem| needs_commit(a, target),
        ).len());
    }
}

/// A row the backend just confirmed at its desired state needs no further
/// commit: it has left both partitions, so re-running the commit pass
/// retries only the rows still out of sync.
pub proof fn lemma_success_settles_row(a: AchievementItem, target: bool)
    requires
        a.selected == target,
    ensures
        !needs_commit(apply_verdict_spec(a, true, target), true),
        !needs_commit(apply_verdict_spec(a, true, target), false),
{
}

/// The in-memory session state for one application's achievement list.
pub struct App {
    pub achievements: Vec<AchievementItem>,
    pub current_index: usize,
    pub app_id: u32,
    pub status: Option<Status>,
    pub sort_column: SortColumn,
    pub sort_order: SortOrder,
    pub search_query: String,
}

/// All fields agree except possibly the cursor.
pub open spec fn same_except_cursor(pre: App, post: App) -> bool {
    &&& post.achievements == pre.achievements
    &&& post.app_id == pre.app_id
    &&& post.status == pre.status
    &&& post.sort_column == pre.sort_column
    &&& post.sort_order == pre.sort_order
    &&& post.search_query == pre.search_query
}

/// All fields agree except possibly the row list.
pub open spec fn same_except_items(pre: App, post: App) -> bool {
    &&& post.current_index == pre.current_index
    &&& post.app_id == pre.app_id
    &&& post.status == pre.status
    &&& post.sort_column == pre.sort_column
    &&& post.sort_order == pre.sort_order
    &&& post.search_query == pre.search_query
}

impl App {
    /// The cursor is a valid row index whenever any rows exist, and rests at
    /// zero otherwise.
    pub open spec fn wf(&self) -> bool {
        &&& (self.achievements@.len() == 0 ==> self.current_index == 0)
        &&& (self.achievements@.len() > 0 ==> (self.current_index as int) < self.achievements@.len())
    }

    /// Builds the session model for one application: each fetched
    /// achievement becomes a row whose desired state matches its confirmed
    /// one, pre-sorted by rarity descending and then re-sorted under the
    /// stored preference, with the cursor on the first row.
    pub fn new(infos: Vec<AchievementInfo>, app_id: u32, config: AppConfig) -> (app: App)
        ensures
            app.wf(),
            app.achievements@ == sort_spec(
                sort_spec(items_of(infos@), SortColumn::Percentage, SortOrder::Descending),
                config.sort_column,
                config.sort_order,
            ),
            app.current_index == 0,
            app.app_id == app_id,
            app.status is None,
            app.sort_column == config.sort_column,
            app.sort_order == config.sort_order,
            app.search_query@ == Seq::<char>::empty(),
    {
        let mut items: Vec<AchievementItem> = Vec::new();
        let mut i: usize = 0;
        while i < infos.len()
            invariant
                i <= infos@.len(),
                items@ == items_of(infos@.take(i as int)),
            decreases infos@.len() - i,
        {
            let inf: &AchievementInfo = &infos[i];
            items.push(
                AchievementItem {
                    name: inf.name.clone(),
                    selected: inf.unlocked,
                    unlocked: inf.unlocked,
                    percentage: inf.percentage,
                    status: AchievementStatus::Unchanged,
                },
            );
            proof {
                assert(items_of(infos@.take(i + 1 as int)) =~= items_of(infos@.take(i as int)).push(
                    item_of(infos@[i as int]),
                ));
            }
            i = i + 1;
        }
        proof {
            assert(infos@.take(infos@.len() as int) =~= infos@);
        }
        sort_items(&mut items, SortColumn::Percentage, SortOrder::Descending);
        sort_items(&mut items, config.sort_column, config.sort_order);
        proof {
            lemma_sort_spec_len(items_of(infos@), SortColumn::Percentage, SortOrder::Descending);
            lemma_sort_spec_len(
                sort_spec(items_of(infos@), SortColumn::Percentage, SortOrder::Descending),
                config.sort_column,
                config.sort_order,
            );
        }
        App {
            achievements: items,
            current_index: 0,
            app_id,
            status: None,
            sort_column: config.sort_column,
            sort_order: config.sort_order,
            search_query: String::new(),
        }
    }

    /// Moves the cursor down one row, wrapping; no-op on an empty list.
    pub fn next(&mut self)
        requires
            old(self).wf(),
        ensures
            final(self).wf(),
            same_except_cursor(*old(self), *final(self)),
            old(self).achievements@.len() == 0 ==> final(self).current_index == old(
                self,
            ).current_index,
            old(self).achievements@.len() > 0 ==> final(self).current_index as int == next_index(
                old(self).current_index as int,
                old(self).achievements@.len() as int,
            ),
    {
        if self.achievements.len() > 0 {
            if self.current_index + 1 >= self.achievements.len() {
                self.current_index = 0;
            } else {
                self.current_index = self.current_index + 1;
            }
        }
    }

    /// Moves the cursor up one row, wrapping; no-op on an empty list.
    pub fn previous(&mut self)
        requires
            old(self).wf(),
        ensures
            final(self).wf(),
            same_except_cursor(*old(self), *final(self)),
            old(self).achievements@.len() == 0 ==> final(self).current_index == old(
                self,
            ).current_index,
            old(self).achievements@.len() > 0 ==> final(self).current_index as int == prev_index(
                old(self).current_index as int,
                old(self).achievements@.len() as int,
            ),
    {
        if self.achievements.len() > 0 {
            if self.current_index > 0 {
                self.current_index = self.current_index - 1;
            } else {
                self.current_index = self.achievements.len() - 1;
            }
        }
    }

    /// Moves the cursor to `index`, clamped into range; no-op on an empty
    /// list.
    pub fn jump_to(&mut self, index: usize)
        requires
            old(self).wf(),
        ensures
            final(self).wf(),
            same_except_cursor(*old(self), *final(self)),
            old(self).achievements@.len() == 0 ==> final(self).current_index == old(
                self,
            ).current_index,
            old(self).achievements@.len() > 0 ==> final(self).current_index as int
                == clamped_index(index as int, old(self).achievements@.len() as int),
    {
        if self.achievements.len() > 0 {
            let max_index: usize = self.achievements.len() - 1;
            self.current_index = if index < max_index {
                index
            } else {
                max_index
            };
        }
    }

    /// Moves the cursor to the first row; no-op on an empty list.
    pub fn jump_to_top(&mut self)
        requires
            old(self).wf(),
        ensures
            final(self).wf(),
            same_except_cursor(*old(self), *final(self)),
            final(self).current_index == 0,
    {
        self.current_index = 0;
    }

    /// Moves the cursor to the last row; no-op on an empty list.
    pub fn jump_to_bottom(&mut self)
        requires
            old(self).wf(),
        ensures
            final(self).wf(),
            same_except_cursor(*old(self), *final(self)),
            old(self).achievements@.len() == 0 ==> final(self).current_index == old(
                self,
            ).current_index,
            old(self).achievements@.len() > 0 ==> final(self).current_index as int == old(
                self,
            ).achievements@.len() - 1,
    {
        if self.achievements.len() > 0 {
            self.current_index = self.achievements.len() - 1;
        }
    }

    /// Moves the cursor up by one page, clamped at the top; no-op on an
    /// empty list.
    pub fn page_up(&mut self)
        requires
            old(self).wf(),
        ensures
            final(self).wf(),
            same_except_cursor(*old(self), *final(self)),
            old(self).achievements@.len() == 0 ==> final(self).current_index == old(
                self,
            ).current_index,
            old(self).achievements@.len() > 0 ==> final(self).current_index as int == page_up_index(
                old(self).current_index as int,
            ),
    {
        if self.achievements.len() > 0 {
            if self.current_index >= PAGE_SIZE {
                self.current_index = self.current_index - PAGE_SIZE;
            } else {
                self.current_index = 0;
            }
        }
    }

    /// Moves the cursor down by one page, clamped at the bottom; no-op on an
    /// empty list.
    pub fn page_down(&mut self)
        requires
            old(self).wf(),
        ensures
            final(self).wf(),
            same_except_cursor(*old(self), *final(self)),
            old(self).achievements@.len() == 0 ==> final(self).current_index == old(
                self,
            ).current_index,
            old(self).achievements@.len() > 0 ==> final(self).current_index as int
                == page_down_index(
                old(self).current_index as int,
                old(self).achievements@.len() as int,
            ),
    {
        if self.achievements.len() > 0 {
            let max_index: usize = self.achievements.len() - 1;
            if self.current_index <= max_index && max_index - self.current_index >= PAGE_SIZE {
                self.current_index = self.current_index + PAGE_SIZE;
            } else {
                self.current_index = max_index;
            }
        }
    }

    /// Flips the desired state of the row under the cursor; no-op on an
    /// empty list.
    pub fn toggle_selection(&mut self)
        requires
            old(self).wf(),
        ensures
            final(self).wf(),
            same_except_items(*old(self), *final(self)),
            old(self).achievements@.len() == 0 ==> final(self).achievements == old(
                self,
            ).achievements,
            old(self).achievements@.len() > 0 ==> final(self).achievements@ == old(
                self,
            ).achievements@.update(
                old(self).current_index as int,
                AchievementItem {
                    selected: !old(self).achievements@[old(self).current_index as int].selected,
                    ..old(self).achievements@[old(self).current_index as int]
                },
            ),
    {
        if self.achievements.len() > 0 {
            let cur: usize = self.current_index;
            let updated: AchievementItem = AchievementItem {
                name: self.achievements[cur].name.clone(),
                selected: !self.achievements[cur].selected,
                unlocked: self.achievements[cur].unlocked,
                percentage: self.achievements[cur].percentage,
                status: self.achievements[cur].status,
            };
            self.achievements[cur] = updated;
        }
    }

    /// Sets the desired state of every row to `sel`.
    fn set_all(&mut self, sel: bool)
        requires
            old(self).wf(),
        ensures
            final(self).wf(),
            same_except_items(*old(self), *final(self)),
            final(self).achievements@ == all_selected(old(self).achievements@, sel),
    {
        let ghost orig = self.achievements@;
        let mut i: usize = 0;
        while i < self.achievements.len()
            invariant
                i <= orig.len(),
                self.achievements@.len() == orig.len(),
                self.achievements@ == all_selected(orig.take(i as int), sel) + orig.skip(i as int),
                self.current_index == old(self).current_index,
                self.app_id == old(self).app_id,
                self.status == old(self).status,
                self.sort_column == old(self).sort_column,
                self.sort_order == old(self).sort_order,
                self.search_query == old(self).search_query,
                orig == old(self).achievements@,
            decreases orig.len() - i,
        {
            proof {
                assert(self.achievements@[i as int] == orig[i as int]);
            }
            let updated: AchievementItem = AchievementItem {
                name: self.achievements[i].name.clone(),
                selected: sel,
                unlocked: self.achievements[i].unlocked,
                percentage: self.achievements[i].percentage,
                status: self.achievements[i].status,
            };
            self.achievements[i] = updated;
            proof {
                assert(self.achievements@ =~= all_selected(orig.take(i + 1 as int), sel)
                    + orig.skip(i + 1 as int));
            }
            i = i + 1;
        }
        proof {
            assert(orig.take(orig.len() as int) =~= orig);
            assert(self.achievements@ =~= all_selected(orig, sel));
        }
    }

    /// Marks every row as desired-unlocked.
    pub fn select_all(&mut self)
        requires
            old(self).wf(),
        ensures
            final(self).wf(),
            same_except_items(*old(self), *final(self)),
            final(self).achievements@ == all_selected(old(self).achievements@, true),
    {
        self.set_all(true);
    }

    /// Marks every row as desired-locked.
    pub fn deselect_all(&mut self)
        requires
            old(self).wf(),
        ensures
            final(self).wf(),
            same_except_items(*old(self), *final(self)),
            final(self).achievements@ == all_selected(old(self).achievements@, false),
    {
        self.set_all(false);
    }

    /// Reorders the rows under the current sort preference. The cursor keeps
    /// its numeric position rather than following the row it was on.
    pub fn sort_achievements(&mut self)
        requires
            old(self).wf(),
        ensures
            final(self).wf(),
            same_except_items(*old(self), *final(self)),
            final(self).achievements@ == sort_spec(
                old(self).achievements@,
                old(self).sort_column,
                old(self).sort_order,
            ),
    {
        let col: SortColumn = self.sort_column;
        let ord: SortOrder = self.sort_order;
        sort_items(&mut self.achievements, col, ord);
        proof {
            lemma_sort_spec_len(old(self).achievements@, col, ord);
        }
    }

    /// Switches the sort column and reorders. The caller persists the new
    /// preference, best-effort.
    pub fn set_sort_column(&mut self, column: SortColumn)
        requires
            old(self).wf(),
        ensures
            final(self).wf(),
            final(self).sort_column == column,
            final(self).sort_order == old(self).sort_order,
            final(self).achievements@ == sort_spec(
                old(self).achievements@,
                column,
                old(self).sort_order,
            ),
            final(self).current_index == old(self).current_index,
            final(self).app_id == old(self).app_id,
            final(self).status == old(self).status,
            final(self).search_query == old(self).search_query,
    {
        self.sort_column = column;
        self.sort_achievements();
    }

    /// Flips the sort direction and reorders. The caller persists the new
    /// preference, best-effort.
    pub fn toggle_sort_order(&mut self)
        requires
            old(self).wf(),
        ensures
            final(self).wf(),
            final(self).sort_column == old(self).sort_column,
            final(self).sort_order == old(self).sort_order.flip(),
            final(self).achievements@ == sort_spec(
                old(self).achievements@,
                old(self).sort_column,
                old(self).sort_order.flip(),
            ),
            final(self).current_index == old(self).current_index,
            final(self).app_id == old(self).app_id,
            final(self).status == old(self).status,
            final(self).search_query == old(self).search_query,
    {
        self.sort_order = self.sort_order.flipped();
        self.sort_achievements();
    }

    /// Scores every row's lowercased name against the lowercased search
    /// query and moves the cursor to the strictly-best match (the earliest
    /// row on a tie). Returns whether any row matched; a blank query matches
    /// nothing and moves nothing.
    pub fn search_first_match(&mut self) -> (found: bool)
        requires
            old(self).wf(),
        ensures
            final(self).wf(),
            same_except_cursor(*old(self), *final(self)),
            trim_spec(old(self).search_query@).len() == 0 ==> !found && final(self).current_index
                == old(self).current_index,
            trim_spec(old(self).search_query@).len() > 0 ==> match best_match(
                old(self).achievements@,
                lower_of(old(self).search_query@),
            ) {
                None => !found && final(self).current_index == old(self).current_index,
                Some(b) => found && final(self).current_index as int == b.0,
            },
    {
        if str_trim_blank(self.search_query.as_str()) {
            return false;
        }
        let query: String = lowercase(self.search_query.as_str());
        let ghost q = query@;
        let ghost items = self.achievements@;
        let mut best_idx: usize = 0;
        let mut best_score: i64 = 0;
        let mut have: bool = false;
        let mut i: usize = 0;
        while i < self.achievements.len()
            invariant
                i <= items.len(),
                self.achievements@ == items,
                q == query@,
                q == lower_of(old(self).search_query@),
                match best_match(items.take(i as int), q) {
                    None => !have,
                    Some(b) => have && best_idx as int == b.0 && best_score as int == b.1,
                },
                have ==> best_idx < i,
            decreases items.len() - i,
        {
            let name_lower: String = lowercase(self.achievements[i].name.as_str());
            let score: Option<i64> = fuzzy_score(name_lower.as_str(), query.as_str());
            proof {
                assert(items.take(i + 1 as int).drop_last() =~= items.take(i as int));
                assert(items.take(i + 1 as int).last() == items[i as int]);
            }
            match score {
                Some(sc) => {
                    if !have || sc > best_score {
                        have = true;
                        best_idx = i;
                        best_score = sc;
                    }
                },
                None => {},
            }
            i = i + 1;
        }
        proof {
            assert(items.take(items.len() as int) =~= items);
        }
        if have {
            proof {
                lemma_best_match_in_range(items, q);
            }
            self.current_index = best_idx;
            true
        } else {
            false
        }
    }

    /// The names of the rows in the partition driving toward `target`, in
    /// row order.
    fn partition_names(&self, target: bool) -> (names: Vec<String>)
        ensures
            name_views(names@) == delta_names(self.achievements@, target),
    {
        let ghost items = self.achievements@;
        let mut names: Vec<String> = Vec::new();
        let mut i: usize = 0;
        while i < self.achievements.len()
            invariant
                i <= items.len(),
                self.achievements@ == items,
                name_views(names@) == delta_names(items.take(i as int), target),
            decreases items.len() - i,
        {
            proof {
                reveal(Seq::filter);
                assert(items.take(i + 1 as int).drop_last() =~= items.take(i as int));
                assert(items.take(i + 1 as int).last() == items[i as int]);
            }
            let a: &AchievementItem = &self.achievements[i];
            if a.selected == target && a.unlocked != target {
                names.push(a.name.clone());
                proof {
                    reveal(Seq::filter);
                    assert(needs_commit(items[i as int], target));
                    assert(delta_names(items.take(i + 1 as int), target) =~= delta_names(
                        items.take(i as int),
                        target,
                    ).push(items[i as int].name@));
                    assert(name_views(names@) =~= delta_names(items.take(i as int), target).push(
                        items[i as int].name@,
                    ));
                }
            } else {
                proof {
                    reveal(Seq::filter);
                    assert(name_views(names@) =~= delta_names(items.take(i + 1 as int), target));
                }
            }
            i = i + 1;
        }
        proof {
            assert(items.take(items.len() as int) =~= items);
        }
        names
    }

    /// The set partition: rows desired unlocked but confirmed locked.
    pub fn set_partition(&self) -> (names: Vec<String>)
        ensures
            name_views(names@) == delta_names(self.achievements@, true),
    {
        self.partition_names(true)
    }

    /// The clear partition: rows desired locked but confirmed unlocked.
    pub fn clear_partition(&self) -> (names: Vec<String>)
        ensures
            name_views(names@) == delta_names(self.achievements@, false),
    {
        self.partition_names(false)
    }

    /// Folds one verdict into the first row carrying `name`, if any, and
    /// reports whether such a row exists.
    fn mark_row(&mut self, name: &String, success: bool, target: bool) -> (was_found: bool)
        ensures
            final(self).achievements@ == mark_name(old(self).achievements@, name@, success, target),
            was_found == found_name(old(self).achievements@, name@),
            final(self).achievements@.len() == old(self).achievements@.len(),
            same_except_items(*old(self), *final(self)),
            final(self).current_index == old(self).current_index,
    {
        let ghost items = self.achievements@;
        let mut j: usize = 0;
        let mut found: bool = false;
        while !found && j < self.achievements.len()
            invariant
                j <= items.len(),
                self.achievements@ == items,
                forall|m: int| 0 <= m < j ==> items[m].name@ != name@,
                found ==> j < items.len() && items[j as int].name@ == name@,
            decreases items.len() - j, (if found { 0int } else { 1int }),
        {
            if str_eq(self.achievements[j].name.as_str(), name.as_str()) {
                found = true;
            } else {
                j = j + 1;
            }
        }
        if found {
            proof {
                lemma_find_by_name_at(items, name@, j as int);
            }
            let updated: AchievementItem = if success {
                AchievementItem {
                    name: self.achievements[j].name.clone(),
                    selected: self.achievements[j].selected,
                    unlocked: target,
                    percentage: self.achievements[j].percentage,
                    status: AchievementStatus::Success,
                }
            } else {
                AchievementItem {
                    name: self.achievements[j].name.clone(),
                    selected: self.achievements[j].selected,
                    unlocked: self.achievements[j].unlocked,
                    percentage: self.achievements[j].percentage,
                    status: AchievementStatus::Failed,
                }
            };
            self.achievements[j] = updated;
            true
        } else {
            proof {
                lemma_find_by_name_none(items, name@);
            }
            false
        }
    }

    /// Folds a backend per-name verdict list into the rows and counts the
    /// successes and failures among verdicts that named an existing row.
    fn apply_verdicts(&mut self, results: &Vec<CommitResult>, target: bool) -> (counts: (
        u128,
        u128,
    ))
        requires
            old(self).wf(),
        ensures
            final(self).wf(),
            final(self).achievements@ == fold_verdicts(old(self).achievements@, results@, target),
            counts.0 == verdict_succ_count(old(self).achievements@, results@, target),
            counts.1 == verdict_fail_count(old(self).achievements@, results@, target),
            counts.0 <= results@.len(),
            counts.1 <= results@.len(),
            counts.0 <= usize::MAX,
            counts.1 <= usize::MAX,
            final(self).achievements@.len() == old(self).achievements@.len(),
            same_except_items(*old(self), *final(self)),
    {
        let ghost pre = self.achievements@;
        proof {
            assert(results@.skip(0) =~= results@);
        }
        let mut s_count: u128 = 0;
        let mut f_count: u128 = 0;
        let mut r: usize = 0;
        while r < results.len()
            invariant
                r <= results@.len(),
                self.achievements@.len() == pre.len(),
                fold_verdicts(pre, results@, target) == fold_verdicts(
                    self.achievements@,
                    results@.skip(r as int),
                    target,
                ),
                verdict_succ_count(pre, results@, target) == s_count + verdict_succ_count(
                    self.achievements@,
                    results@.skip(r as int),
                    target,
                ),
                verdict_fail_count(pre, results@, target) == f_count + verdict_fail_count(
                    self.achievements@,
                    results@.skip(r as int),
                    target,
                ),
                s_count <= r,
                f_count <= r,
                same_except_items(*old(self), *self),
                self.current_index == old(self).current_index,
            decreases results@.len() - r,
        {
            proof {
                assert(results@.skip(r as int)[0] == results@[r as int]);
                assert(results@.skip(r as int).drop_first() =~= results@.skip(r + 1 as int));
            }
            let success: bool = results[r].success;
            let was_found: bool = self.mark_row(&results[r].name, success, target);
            if was_found {
                if success {
                    s_count = s_count + 1;
                } else {
                    f_count = f_count + 1;
                }
            }
            r = r + 1;
        }
        proof {
            assert(results@.skip(results@.len() as int) =~= Seq::<CommitResult>::empty());
        }
        (s_count, f_count)
    }

    /// Folds a whole-partition failure into the rows: every named row is
    /// marked failed, and the failures are counted.
    fn apply_failure(&mut self, names: &Vec<String>) -> (fails: u128)
        requires
            old(self).wf(),
        ensures
            final(self).wf(),
            final(self).achievements@ == fold_failure(old(self).achievements@, name_views(names@)),
            fails == failure_count(old(self).achievements@, name_views(names@)),
            fails <= names@.len(),
            fails <= usize::MAX,
            final(self).achievements@.len() == old(self).achievements@.len(),
            same_except_items(*old(self), *final(self)),
    {
        let ghost pre = self.achievements@;
        let ghost nv = name_views(names@);
        proof {
            assert(nv.skip(0) =~= nv);
        }
        let mut f_count: u128 = 0;
        let mut r: usize = 0;
        while r < names.len()
            invariant
                r <= names@.len(),
                nv == name_views(names@),
                self.achievements@.len() == pre.len(),
                fold_failure(pre, nv) == fold_failure(self.achievements@, nv.skip(r as int)),
                failure_count(pre, nv) == f_count + failure_count(
                    self.achievements@,
                    nv.skip(r as int),
                ),
                f_count <= r,
                same_except_items(*old(self), *self),
                self.current_index == old(self).current_index,
            decreases names@.len() - r,
        {
            proof {
                assert(nv.skip(r as int)[0] == nv[r as int]);
                assert(nv[r as int] == names@[r as int]@);
                assert(nv.skip(r as int).drop_first() =~= nv.skip(r + 1 as int));
            }
            let was_found: bool = self.mark_row(&names[r], false, false);
            if was_found {
                f_count = f_count + 1;
            }
            r = r + 1;
        }
        proof {
            assert(nv.skip(names@.len() as int) =~= Seq::<Seq<char>>::empty());
        }
        f_count
    }

    /// Runs one commit pass: folds each partition's backend outcome into the
    /// rows and reports the aggregate in the status line. The caller hands
    /// in exactly one outcome per non-empty partition (the set partition
    /// first, then the clear partition, both as they stood before the pass)
    /// and no outcome for an empty one, so an all-in-sync model changes
    /// nothing at all here.
    pub fn process_changes(
        &mut self,
        set_outcome: Option<CommitOutcome>,
        clear_outcome: Option<CommitOutcome>,
    )
        requires
            old(self).wf(),
            set_outcome is Some <==> delta_names(old(self).achievements@, true).len() > 0,
            clear_outcome is Some <==> delta_names(old(self).achievements@, false).len() > 0,
        ensures
            final(self).wf(),
            final(self).achievements@ == process_result_items(
                old(self).achievements@,
                set_outcome,
                clear_outcome,
            ),
            final(self).current_index == old(self).current_index,
            final(self).app_id == old(self).app_id,
            final(self).sort_column == old(self).sort_column,
            final(self).sort_order == old(self).sort_order,
            final(self).search_query == old(self).search_query,
            ({
                let s = process_succ(old(self).achievements@, set_outcome, clear_outcome);
                let f = process_fail(old(self).achievements@, set_outcome, clear_outcome);
                &&& (f == 0 && s > 0 ==> (final(self).status matches Some(st) && st.message@
                    == success_message(s) && st.level is Success))
                &&& (f > 0 ==> (final(self).status matches Some(st) && st.message@
                    == mixed_message(s, f) && st.level is Error))
                &&& (f == 0 && s == 0 ==> final(self).status == old(self).status)
            }),
    {
        let to_set: Vec<String> = self.set_partition();
        let to_clear: Vec<String> = self.clear_partition();
        let ghost pre = self.achievements@;
        let mut s_total: u128 = 0;
        let mut f_total: u128 = 0;
        match set_outcome {
            None => {},
            Some(CommitOutcome::Completed(results)) => {
                let counts: (u128, u128) = self.apply_verdicts(&results, true);
                s_total = counts.0;
                f_total = counts.1;
            },
            Some(CommitOutcome::Failed(_)) => {
                f_total = self.apply_failure(&to_set);
            },
        }
        proof {
            assert(self.achievements@ == outcome_items(
                pre,
                set_outcome,
                delta_names(pre, true),
                true,
            ));
            assert(s_total == outcome_succ(pre, set_outcome, true));
            assert(f_total == outcome_fail(pre, set_outcome, delta_names(pre, true), true));
        }
        let ghost mid = self.achievements@;
        match clear_outcome {
            None => {},
            Some(CommitOutcome::Completed(results)) => {
                let counts: (u128, u128) = self.apply_verdicts(&results, false);
                s_total = s_total + counts.0;
                f_total = f_total + counts.1;
            },
            Some(CommitOutcome::Failed(_)) => {
                let fails: u128 = self.apply_failure(&to_clear);
                f_total = f_total + fails;
            },
        }
        proof {
            assert(self.achievements@ == outcome_items(
                mid,
                clear_outcome,
                delta_names(pre, false),
                false,
            ));
            assert(s_total == process_succ(pre, set_outcome, clear_outcome));
            assert(f_total == process_fail(pre, set_outcome, clear_outcome));
        }
        if f_total == 0 && s_total > 0 {
            let mut m: String = String::from_str("✓ Successfully processed ");
            let d: String = dec_string(s_total);
            m.append(d.as_str());
            m.append(" achievement(s)");
            proof {
                assert(m@ == success_message(s_total as int));
            }
            self.status = Some(Status::success(m));
        } else if f_total > 0 {
            let mut m: String = String::from_str("⚠ Processed: ");
            let ds: String = dec_string(s_total);
            m.append(ds.as_str());
            m.append(" success, ");
            let df: String = dec_string(f_total);
            m.append(df.as_str());
            m.append(" failed");
            proof {
                assert(m@ == mixed_message(s_total as int, f_total as int));
            }
            self.status = Some(Status::error(m));
        }
    }
}

} // verus!
