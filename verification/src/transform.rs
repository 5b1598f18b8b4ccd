//! Consolidation of raw tracked records into timesheet rows.
//!
//! The records arrive newest first. Consolidation reverses them into
//! chronological order, projects each onto a timesheet row, and then merges
//! adjacent rows of one activity and one calendar day, accounting the idle
//! gaps in between as the merged row's break.

use vstd::prelude::*;
use crate::clockify::TimeEntry;
use crate::clockify::TimeEntryV;
use crate::clockify::entries_view;
use crate::timestamp::Timestamp;
use crate::timestamp::TimestampV;
use crate::timestamp::lemma_between_same_date;
use crate::timestamp::lemma_le_transitive;

verus! {

/// One consolidated block of work on one activity, with the idle time
/// absorbed while merging recorded as `break_` (in seconds).
#[derive(Clone, Debug, PartialEq, Eq)]
pub struct TimeSheetEntry {
    pub description: String,
    pub start: Timestamp,
    pub end: Timestamp,
    pub break_: u64,
}

/// The mathematical value of a [`TimeSheetEntry`].
pub struct TimeSheetEntryV {
    pub description: Seq<char>,
    pub start: TimestampV,
    pub end: TimestampV,
    pub break_seconds: int,
}

impl View for TimeSheetEntry {
    type V = TimeSheetEntryV;

    open spec fn view(&self) -> TimeSheetEntryV {
        TimeSheetEntryV {
            description: self.description@,
            start: self.start@,
            end: self.end@,
            break_seconds: self.break_ as int,
        }
    }
}

/// The values of a sequence of timesheet rows.
pub open spec fn rows_view(rows: Seq<TimeSheetEntry>) -> Seq<TimeSheetEntryV> {
    rows.map_values(|r: TimeSheetEntry| r@)
}

/// A raw record is well-formed: plausible timestamps and an interval that
/// does not end before it starts.
pub open spec fn entry_wf(e: TimeEntryV) -> bool {
    &&& e.time_interval.start.wf()
    &&& e.time_interval.end.wf()
    &&& e.time_interval.start.le(e.time_interval.end)
}

/// The raw records as the API client delivers them: well-formed, newest
/// first, and never overlapping.
pub open spec fn entries_newest_first(entries: Seq<TimeEntryV>) -> bool {
    &&& forall|i: int| 0 <= i < entries.len() ==> entry_wf(#[trigger] entries[i])
    &&& forall|i: int|
        0 < i < entries.len() ==> (#[trigger] entries[i]).time_interval.end.le(
            entries[i - 1].time_interval.start,
        )
}

/// A timesheet row is well-formed: plausible timestamps and an end no
/// earlier than the start.
pub open spec fn row_wf(r: TimeSheetEntryV) -> bool {
    &&& r.start.wf()
    &&& r.end.wf()
    &&& r.start.le(r.end)
}

/// What the merge pass expects: the projected rows in chronological order,
/// well-formed, never overlapping, and with no break recorded yet.
pub open spec fn mergeable_rows(rows: Seq<TimeSheetEntryV>) -> bool {
    &&& forall|i: int| 0 <= i < rows.len() ==> row_wf(#[trigger] rows[i])
    &&& forall|i: int| 0 <= i < rows.len() ==> (#[trigger] rows[i]).break_seconds == 0
    &&& forall|i: int|
        0 < i < rows.len() ==> rows[i - 1].end.le((#[trigger] rows[i]).start)
}

/// The timesheet row a raw record projects to: the task's name when a task
/// is attached, else the record's own description; the tracked interval; no
/// break.
pub open spec fn project(e: TimeEntryV) -> TimeSheetEntryV {
    TimeSheetEntryV {
        description: match e.task {
            Some(t) => t.name,
            None => e.description,
        },
        start: e.time_interval.start,
        end: e.time_interval.end,
        break_seconds: 0,
    }
}

/// Two adjacent rows merge when they describe one activity and their
/// endpoints fall on one calendar day.
pub open spec fn can_merge(last: TimeSheetEntryV, next: TimeSheetEntryV) -> bool {
    last.description == next.description && last.end.same_date(next.end)
}

/// The row a merge produces: it keeps the earlier row's start and
/// description, ends where the later row ends, and its break grows by the
/// gap between the earlier row's end and the later row's start. Merging only
/// joins endpoints of one calendar day, so that gap is the difference of
/// their seconds of day.
pub open spec fn merged(last: TimeSheetEntryV, next: TimeSheetEntryV) -> TimeSheetEntryV {
    TimeSheetEntryV {
        end: next.end,
        break_seconds: last.break_seconds + next.start.seconds_of_day()
            - last.end.seconds_of_day(),
        ..last
    }
}

/// One step of the merge pass: the incoming row either merges into the last
/// row already emitted or is appended as a new row.
pub open spec fn merge_step(
    acc: Seq<TimeSheetEntryV>,
    next: TimeSheetEntryV,
) -> Seq<TimeSheetEntryV> {
    if acc.len() > 0 && can_merge(acc.last(), next) {
        acc.drop_last().push(merged(acc.last(), next))
    } else {
        acc.push(next)
    }
}

/// The single merge pass over chronologically ordered rows.
pub open spec fn merge_rows(rows: Seq<TimeSheetEntryV>) -> Seq<TimeSheetEntryV>
    decreases rows.len(),
{
    if rows.len() == 0 {
        Seq::empty()
    } else {
        merge_step(merge_rows(rows.drop_last()), rows.last())
    }
}

/// The rows a newest-first record sequence projects to, in chronological
/// order.
pub open spec fn projected(entries: Seq<TimeEntryV>) -> Seq<TimeSheetEntryV> {
    entries.reverse().map_values(|e: TimeEntryV| project(e))
}

/// The consolidation of raw records, newest first: reverse into
/// chronological order, project onto rows, merge.
pub open spec fn consolidate(entries: Seq<TimeEntryV>) -> Seq<TimeSheetEntryV> {
    merge_rows(projected(entries))
}

/// How one projected row reads off the records: position `i` of the
/// chronological rows comes from position `len - 1 - i` of the newest-first
/// records.
proof fn lemma_projected_index(entries: Seq<TimeEntryV>, i: int)
    requires
        0 <= i < entries.len(),
    ensures
        projected(entries).len() == entries.len(),
        projected(entries)[i] == project(entries[entries.len() - 1 - i]),
{
    assert(entries.reverse()[i] == entries[entries.len() - 1 - i]);
}

/// A prefix of mergeable rows is mergeable.
proof fn lemma_mergeable_drop_last(rows: Seq<TimeSheetEntryV>)
    requires
        mergeable_rows(rows),
        rows.len() > 0,
    ensures
        mergeable_rows(rows.drop_last()),
{
    assert forall|i: int| 0 <= i < rows.drop_last().len() implies row_wf(
        #[trigger] rows.drop_last()[i],
    ) && rows.drop_last()[i].break_seconds == 0 by {
        assert(rows.drop_last()[i] == rows[i]);
    }
    assert forall|i: int| 0 < i < rows.drop_last().len() implies rows.drop_last()[i
        - 1].end.le((#[trigger] rows.drop_last()[i]).start) by {
        assert(rows.drop_last()[i] == rows[i]);
        assert(rows.drop_last()[i - 1] == rows[i - 1]);
    }
}

/// The merge pass never returns an empty result for a non-empty input; the
/// last row it emits ends where the last input row ends, and its break never
/// exceeds that end's seconds of day.
proof fn lemma_merge_rows_last(rows: Seq<TimeSheetEntryV>)
    requires
        mergeable_rows(rows),
        rows.len() > 0,
    ensures
        merge_rows(rows).len() > 0,
        merge_rows(rows).last().end == rows.last().end,
        0 <= merge_rows(rows).last().break_seconds <= rows.last().end.seconds_of_day(),
    decreases rows.len(),
{
    let r = rows.last();
    assert(row_wf(r));
    if rows.len() == 1 {
        assert(merge_rows(rows.drop_last()) =~= Seq::<TimeSheetEntryV>::empty());
        assert(merge_rows(rows) =~= Seq::<TimeSheetEntryV>::empty().push(r));
    } else {
        let s = rows.drop_last();
        lemma_mergeable_drop_last(rows);
        lemma_merge_rows_last(s);
        let acc = merge_rows(s);
        assert(s.last() == rows[rows.len() - 2]);
        assert(s.last().end.le(r.start));
        if can_merge(acc.last(), r) {
            // the later row's start lies on the shared calendar day, so its
            // seconds of day bound the grown break
            lemma_between_same_date(s.last().end, r.start, r.end);
            assert(merge_rows(rows).last() == merged(acc.last(), r));
        } else {
            assert(merge_rows(rows).last() == r);
        }
    }
}

/// Reversing and projecting records that arrive newest first yields rows the
/// merge pass accepts.
proof fn lemma_projected_mergeable(entries: Seq<TimeEntryV>)
    requires
        entries_newest_first(entries),
    ensures
        mergeable_rows(projected(entries)),
{
    let rows = projected(entries);
    let n = entries.len();
    assert(rows.len() == n);
    assert forall|i: int| 0 <= i < n implies row_wf(#[trigger] rows[i])
        && rows[i].break_seconds == 0 by {
        lemma_projected_index(entries, i);
        assert(entry_wf(entries[n - 1 - i]));
    }
    assert forall|i: int| 0 < i < n implies rows[i - 1].end.le((#[trigger] rows[i]).start) by {
        lemma_projected_index(entries, i);
        lemma_projected_index(entries, i - 1);
        assert(entries[n - i].time_interval.end.le(entries[n - i - 1].time_interval.start));
    }
}

/// Converts raw records into timesheet rows: reverses the newest-first input
/// into chronological order and projects each record, with no break yet.
#[verifier::loop_isolation(false)]
pub fn convert_time_entries(time_entries: Vec<TimeEntry>) -> (r: Vec<TimeSheetEntry>)
    ensures
        rows_view(r@) == projected(entries_view(time_entries@)),
{
    let ghost orig = time_entries@;
    let ghost n = orig.len() as int;
    let mut remaining = time_entries;
    let mut result: Vec<TimeSheetEntry> = Vec::new();
    proof {
        assert(orig.take(n) =~= orig);
    }
    while remaining.len() > 0
        invariant
            remaining@.len() + result@.len() == n,
            remaining@ == orig.take(remaining@.len() as int),
            forall|i: int|
                0 <= i < result@.len() ==> #[trigger] result@[i]@ == project(orig[n - 1 - i]@),
        decreases remaining@.len(),
    {
        let ghost m = remaining@.len() as int;
        let ghost prev = remaining@;
        let entry = remaining.pop().unwrap();
        proof {
            assert(entry == prev.last());
            assert(prev == orig.take(m));
            assert(prev[m - 1] == orig.take(m)[m - 1]);
            assert(prev.last() == orig[m - 1]);
            assert(remaining@ == prev.drop_last());
            assert(remaining@ =~= orig.take(m - 1));
        }
        let TimeEntry { description, billable: _, task_id: _, time_interval, task } = entry;
        let description = match task {
            Some(t) => t.name,
            None => description,
        };
        let row = TimeSheetEntry {
            description,
            start: time_interval.start,
            end: time_interval.end,
            break_: 0,
        };
        proof {
            assert(row@ == project(orig[m - 1]@));
        }
        result.push(row);
    }
    proof {
        let ev = entries_view(orig);
        assert forall|i: int| 0 <= i < n implies #[trigger] rows_view(result@)[i] == projected(
            ev,
        )[i] by {
            lemma_projected_index(ev, i);
            assert(rows_view(result@)[i] == result@[i]@);
            assert(ev[n - 1 - i] == orig[n - 1 - i]@);
        }
        assert(rows_view(result@) =~= projected(ev));
    }
    result
}

/// Merges subsequent timesheet rows of one activity and one calendar day,
/// accumulating the gaps between them as the merged row's break.
#[verifier::loop_isolation(false)]
pub fn merge_time_sheet_entries(time_entries: Vec<TimeSheetEntry>) -> (r: Vec<TimeSheetEntry>)
    requires
        mergeable_rows(rows_view(time_entries@)),
    ensures
        rows_view(r@) == merge_rows(rows_view(time_entries@)),
{
    let ghost orig = time_entries@;
    let ghost all = rows_view(time_entries@);
    let ghost n = all.len() as int;
    let mut remaining = time_entries;
    let mut result: Vec<TimeSheetEntry> = Vec::new();
    proof {
        assert(remaining@ =~= orig.skip(0));
        assert(all.take(0) =~= Seq::<TimeSheetEntryV>::empty());
        assert(rows_view(result@) =~= merge_rows(all.take(0)));
    }
    while remaining.len() > 0
        invariant
            remaining@.len() <= n,
            remaining@ == orig.skip(n - remaining@.len()),
            rows_view(result@) == merge_rows(all.take(n - remaining@.len())),
        decreases remaining@.len(),
    {
        let ghost k = n - remaining@.len();
        let ghost prev_rem = remaining@;
        let next = remaining.remove(0);
        proof {
            assert(next == prev_rem[0]);
            assert(prev_rem[0] == orig[k]);
            lemma_rows_view_index(orig, k);
            assert(next@ == all[k]);
            assert(remaining@ =~= orig.skip(k + 1));
            assert(all.take(k + 1).drop_last() =~= all.take(k));
            assert(all.take(k + 1).last() == all[k]);
            assert(merge_rows(all.take(k + 1)) == merge_step(merge_rows(all.take(k)), all[k]));
        }
        let m = result.len();
        let ghost acc = merge_rows(all.take(k));
        let ghost prev_res = result@;
        let mut do_merge = false;
        if m > 0 {
            proof {
                assert(k > 0) by {
                    if k == 0 {
                        assert(all.take(0) =~= Seq::<TimeSheetEntryV>::empty());
                        assert(acc.len() == 0);
                    }
                }
                lemma_mergeable_take(all, k);
                lemma_merge_rows_last(all.take(k));
                assert(all.take(k).last() == all[k - 1]);
                lemma_rows_view_index(prev_res, m - 1);
                assert(prev_res[m - 1]@ == acc.last());
            }
            let same_desc = result[m - 1].description == next.description;
            let same_day = result[m - 1].end.on_same_date(&next.end);
            do_merge = same_desc && same_day;
        }
        if do_merge {
            proof {
                assert(can_merge(acc.last(), all[k]));
                assert(acc.last().end == all[k - 1].end);
                assert(row_wf(all[k - 1]));
                assert(row_wf(all[k]));
                assert(all[k - 1].end.le(all[k].start));
                lemma_between_same_date(all[k - 1].end, all[k].start, all[k].end);
            }
            let end_s = result[m - 1].end.day_seconds();
            let start_s = next.start.day_seconds();
            let gap = start_s - end_s;
            let prev = result.pop().unwrap();
            let merged_row = TimeSheetEntry {
                description: prev.description,
                start: prev.start,
                end: next.end,
                break_: prev.break_ + gap as u64,
            };
            proof {
                assert(prev == prev_res.last());
                assert(prev@ == acc.last());
                assert(merged_row@ == merged(acc.last(), all[k]));
            }
            result.push(merged_row);
            proof {
                lemma_rows_view_drop_last(prev_res);
                lemma_rows_view_push(prev_res.drop_last(), merged_row);
                assert(result@ == prev_res.drop_last().push(merged_row));
                assert(rows_view(result@) == merge_step(acc, all[k]));
            }
        } else {
            proof {
                if m > 0 {
                    assert(!can_merge(acc.last(), all[k]));
                } else {
                    assert(rows_view(prev_res).len() == 0);
                    assert(acc.len() == 0);
                }
            }
            result.push(next);
            proof {
                lemma_rows_view_push(prev_res, next);
                assert(result@ == prev_res.push(next));
                assert(rows_view(result@) == merge_step(acc, all[k]));
            }
        }
    }
    proof {
        assert(all.take(n) =~= all);
    }
    result
}

/// How the value of one row reads off a row sequence's values.
proof fn lemma_rows_view_index(rows: Seq<TimeSheetEntry>, i: int)
    requires
        0 <= i < rows.len(),
    ensures
        rows_view(rows)[i] == rows[i]@,
{
}

/// Appending a row appends its value.
proof fn lemma_rows_view_push(rows: Seq<TimeSheetEntry>, x: TimeSheetEntry)
    ensures
        rows_view(rows.push(x)) == rows_view(rows).push(x@),
{
    assert(rows_view(rows.push(x)) =~= rows_view(rows).push(x@));
}

/// Dropping the last row drops its value.
proof fn lemma_rows_view_drop_last(rows: Seq<TimeSheetEntry>)
    requires
        rows.len() > 0,
    ensures
        rows_view(rows.drop_last()) == rows_view(rows).drop_last(),
{
    assert(rows_view(rows.drop_last()) =~= rows_view(rows).drop_last());
}

/// A prefix of mergeable rows is mergeable.
proof fn lemma_mergeable_take(rows: Seq<TimeSheetEntryV>, k: int)
    requires
        mergeable_rows(rows),
        0 <= k <= rows.len(),
    ensures
        mergeable_rows(rows.take(k)),
{
    assert forall|i: int| 0 <= i < k implies row_wf(#[trigger] rows.take(k)[i])
        && rows.take(k)[i].break_seconds == 0 by {
        assert(rows.take(k)[i] == rows[i]);
    }
    assert forall|i: int| 0 < i < k implies rows.take(k)[i - 1].end.le(
        (#[trigger] rows.take(k)[i]).start,
    ) by {
        assert(rows.take(k)[i] == rows[i]);
        assert(rows.take(k)[i - 1] == rows[i - 1]);
    }
}

/// Rows stand in ascending order of their start times.
pub open spec fn rows_ordered_by_start(rows: Seq<TimeSheetEntryV>) -> bool {
    forall|i: int|
        0 < i < rows.len() ==> rows[i - 1].start.le((#[trigger] rows[i]).start)
}

/// The merge pass keeps rows ordered by start, and its last row starts no
/// later than the last input row ends.
proof fn lemma_merge_rows_ordered(rows: Seq<TimeSheetEntryV>)
    requires
        mergeable_rows(rows),
        rows.len() > 0,
    ensures
        rows_ordered_by_start(merge_rows(rows)),
        merge_rows(rows).len() > 0,
        merge_rows(rows).last().start.le(rows.last().end),
    decreases rows.len(),
{
    let r = rows.last();
    assert(row_wf(r));
    if rows.len() == 1 {
        assert(merge_rows(rows.drop_last()) =~= Seq::<TimeSheetEntryV>::empty());
        assert(merge_rows(rows) =~= Seq::<TimeSheetEntryV>::empty().push(r));
    } else {
        let s = rows.drop_last();
        lemma_mergeable_drop_last(rows);
        lemma_merge_rows_ordered(s);
        let acc = merge_rows(s);
        assert(s.last() == rows[rows.len() - 2]);
        assert(s.last().end.le(r.start));
        lemma_le_transitive(acc.last().start, s.last().end, r.start);
        if can_merge(acc.last(), r) {
            let out = acc.drop_last().push(merged(acc.last(), r));
            assert(merge_rows(rows) == out);
            assert forall|i: int| 0 < i < out.len() implies out[i - 1].start.le(
                (#[trigger] out[i]).start,
            ) by {
                assert(out[i - 1] == acc[i - 1]);
                if i < out.len() - 1 {
                    assert(out[i] == acc[i]);
                } else {
                    assert(out[i] == merged(acc.last(), r));
                    assert(out[i].start == acc[i].start);
                }
                assert(acc[i - 1].start.le(acc[i].start));
            }
            lemma_le_transitive(acc.last().start, r.start, r.end);
        } else {
            let out = acc.push(r);
            assert(merge_rows(rows) == out);
            assert forall|i: int| 0 < i < out.len() implies out[i - 1].start.le(
                (#[trigger] out[i]).start,
            ) by {
                if i < out.len() - 1 {
                    assert(out[i] == acc[i]);
                    assert(out[i - 1] == acc[i - 1]);
                    assert(acc[i - 1].start.le(acc[i].start));
                } else {
                    assert(out[i - 1] == acc.last());
                    assert(out[i] == r);
                }
            }
        }
    }
}

/// Consolidated rows come out ordered by their start times, ascending.
pub proof fn lemma_consolidate_ordered(entries: Seq<TimeEntryV>)
    requires
        entries_newest_first(entries),
    ensures
        rows_ordered_by_start(consolidate(entries)),
{
    lemma_projected_mergeable(entries);
    if entries.len() > 0 {
        lemma_merge_rows_ordered(projected(entries));
    }
}

/// The merge pass leaves a single row alone.
proof fn lemma_merge_rows_single(r: TimeSheetEntryV)
    ensures
        merge_rows(seq![r]) == seq![r],
{
    assert(seq![r].drop_last() =~= Seq::<TimeSheetEntryV>::empty());
    assert(merge_rows(Seq::<TimeSheetEntryV>::empty()) == Seq::<TimeSheetEntryV>::empty());
    assert(merge_rows(seq![r]) =~= seq![r]);
}

/// A single raw record consolidates to exactly one row, and that row carries
/// no break.
pub proof fn lemma_consolidate_single_record(e: TimeEntryV)
    ensures
        consolidate(seq![e]).len() == 1,
        consolidate(seq![e])[0] == project(e),
        consolidate(seq![e])[0].break_seconds == 0,
{
    let entries = seq![e];
    assert(projected(entries) =~= seq![project(e)]);
    lemma_merge_rows_single(project(e));
}

/// Two records of one activity whose endpoints fall on one calendar day
/// consolidate to a single merged row: it runs from the earlier record's
/// start to the later record's end, and its break is the gap between the
/// earlier record's end and the later record's start.
pub proof fn lemma_consolidate_merges_same_day(newer: TimeEntryV, older: TimeEntryV)
    requires
        entries_newest_first(seq![newer, older]),
        project(older).description == project(newer).description,
        older.time_interval.end.same_date(newer.time_interval.end),
    ensures
        consolidate(seq![newer, older]).len() == 1,
        consolidate(seq![newer, older])[0].description == project(older).description,
        consolidate(seq![newer, older])[0].start == older.time_interval.start,
        consolidate(seq![newer, older])[0].end == newer.time_interval.end,
        consolidate(seq![newer, older])[0].break_seconds == newer.time_interval.start.seconds_of_day()
            - older.time_interval.end.seconds_of_day(),
{
    let entries = seq![newer, older];
    let rows = projected(entries);
    assert(rows =~= seq![project(older), project(newer)]);
    assert(rows.drop_last() =~= seq![project(older)]);
    lemma_merge_rows_single(project(older));
    assert(can_merge(project(older), project(newer)));
    assert(merge_rows(rows) == merge_step(seq![project(older)], project(newer)));
    assert(merge_rows(rows) =~= seq![merged(project(older), project(newer))]);
}

/// Two records of one activity whose endpoints fall on different calendar
/// days consolidate to two separate rows, each without a break.
pub proof fn lemma_consolidate_splits_days(newer: TimeEntryV, older: TimeEntryV)
    requires
        entries_newest_first(seq![newer, older]),
        !older.time_interval.end.same_date(newer.time_interval.end),
    ensures
        consolidate(seq![newer, older]).len() == 2,
        consolidate(seq![newer, older])[0] == project(older),
        consolidate(seq![newer, older])[1] == project(newer),
        consolidate(seq![newer, older])[0].break_seconds == 0,
        consolidate(seq![newer, older])[1].break_seconds == 0,
{
    let entries = seq![newer, older];
    let rows = projected(entries);
    assert(rows =~= seq![project(older), project(newer)]);
    assert(rows.drop_last() =~= seq![project(older)]);
    lemma_merge_rows_single(project(older));
    assert(!can_merge(project(older), project(newer)));
    assert(merge_rows(rows) == merge_step(seq![project(older)], project(newer)));
    assert(merge_rows(rows) =~= seq![project(older), project(newer)]);
}

/// Three records with alternating activities consolidate to three separate
/// rows: nothing merges across the middle record of the other activity.
pub proof fn lemma_consolidate_keeps_alternating(
    third: TimeEntryV,
    second: TimeEntryV,
    first: TimeEntryV,
)
    requires
        project(first).description == project(third).description,
        project(first).description != project(second).description,
    ensures
        consolidate(seq![third, second, first]) == seq![
            project(first),
            project(second),
            project(third),
        ],
{
    let entries = seq![third, second, first];
    let rows = projected(entries);
    assert(rows =~= seq![project(first), project(second), project(third)]);
    assert(rows.drop_last() =~= seq![project(first), project(second)]);
    assert(rows.drop_last().drop_last() =~= seq![project(first)]);
    lemma_merge_rows_single(project(first));
    assert(!can_merge(project(first), project(second)));
    assert(merge_rows(rows.drop_last()) == merge_step(seq![project(first)], project(second)));
    assert(merge_rows(rows.drop_last()) =~= seq![project(first), project(second)]);
    assert(!can_merge(project(second), project(third)));
    assert(merge_rows(rows) == merge_step(seq![project(first), project(second)], project(third)));
    assert(merge_rows(rows) =~= seq![project(first), project(second), project(third)]);
}

/// Consolidates raw tracked records, newest first, into timesheet rows.
pub fn transform_time_entries(time_entries: Vec<TimeEntry>) -> (r: Vec<TimeSheetEntry>)
    requires
        entries_newest_first(entries_view(time_entries@)),
    ensures
        rows_view(r@) == consolidate(entries_view(time_entries@)),
{
    proof {
        lemma_projected_mergeable(entries_view(time_entries@));
    }
    merge_time_sheet_entries(convert_time_entries(time_entries))
}

} // verus!
