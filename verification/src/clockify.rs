//! Data handed over by the time-tracking API client, and the pure helpers the
//! client relies on: the month query range and task resolution.
//!
//! The HTTP retrieval itself lives outside the library; it delivers plain
//! values in the types below.

use vstd::prelude::*;
use crate::decimal::dec_str;
use crate::decimal::two_digit_str;
use crate::decimal::format_u64;
use crate::decimal::format_two_digit;
use crate::timestamp::Timestamp;
use crate::timestamp::TimestampV;

verus! {

/// The tracking service's account data for one user.
#[derive(Clone, Debug, PartialEq, Eq)]
pub struct User {
    pub id: String,
    pub active_workspace: String,
}

/// An API key together with the user it belongs to.
#[derive(Clone, Debug)]
pub struct ApiUser {
    pub api_key: String,
    pub user: User,
}

/// One task of the tracked project.
#[derive(Clone, Debug, PartialEq, Eq)]
pub struct Task {
    pub id: String,
    pub name: String,
}

/// The tracked start and end of one time entry.
#[derive(Clone, Copy, Debug, PartialEq, Eq)]
pub struct TimeInterval {
    pub start: Timestamp,
    pub end: Timestamp,
}

/// One raw tracked record, newest first in the sequence the client delivers.
#[derive(Clone, Debug, PartialEq, Eq)]
pub struct TimeEntry {
    pub description: String,
    pub billable: bool,
    pub task_id: Option<String>,
    pub time_interval: TimeInterval,
    pub task: Option<Task>,
}

/// The mathematical value of a [`Task`].
pub struct TaskV {
    pub id: Seq<char>,
    pub name: Seq<char>,
}

/// The mathematical value of a [`TimeInterval`].
pub struct TimeIntervalV {
    pub start: TimestampV,
    pub end: TimestampV,
}

/// The mathematical value of a [`TimeEntry`].
pub struct TimeEntryV {
    pub description: Seq<char>,
    pub billable: bool,
    pub task_id: Option<Seq<char>>,
    pub time_interval: TimeIntervalV,
    pub task: Option<TaskV>,
}

impl View for Task {
    type V = TaskV;

    open spec fn view(&self) -> TaskV {
        TaskV { id: self.id@, name: self.name@ }
    }
}

impl View for TimeInterval {
    type V = TimeIntervalV;

    open spec fn view(&self) -> TimeIntervalV {
        TimeIntervalV { start: self.start@, end: self.end@ }
    }
}

impl View for TimeEntry {
    type V = TimeEntryV;

    open spec fn view(&self) -> TimeEntryV {
        TimeEntryV {
            description: self.description@,
            billable: self.billable,
            task_id: match self.task_id {
                Some(id) => Some(id@),
                None => None,
            },
            time_interval: self.time_interval@,
            task: match self.task {
                Some(t) => Some(t@),
                None => None,
            },
        }
    }
}

/// The values of a sequence of tasks.
pub open spec fn tasks_view(tasks: Seq<Task>) -> Seq<TaskV> {
    tasks.map_values(|t: Task| t@)
}

/// The values of a sequence of time entries.
pub open spec fn entries_view(entries: Seq<TimeEntry>) -> Seq<TimeEntryV> {
    entries.map_values(|e: TimeEntry| e@)
}

/// The task in `tasks` with the given id, taking the last one when several
/// share an id, as a keyed lookup built by insertion would.
pub open spec fn task_for(tasks: Seq<TaskV>, id: Seq<char>) -> Option<TaskV>
    decreases tasks.len(),
{
    if tasks.len() == 0 {
        None
    } else if tasks.last().id == id {
        Some(tasks.last())
    } else {
        task_for(tasks.drop_last(), id)
    }
}

/// The entry after task resolution: an entry with a task id carries the
/// matching task (or none, when the id is unknown); one without is unchanged.
pub open spec fn resolve_entry_spec(entry: TimeEntryV, tasks: Seq<TaskV>) -> TimeEntryV {
    match entry.task_id {
        Some(id) => TimeEntryV { task: task_for(tasks, id), ..entry },
        None => entry,
    }
}

/// The value of an optional task.
pub open spec fn opt_task_view(t: Option<Task>) -> Option<TaskV> {
    match t {
        Some(t) => Some(t@),
        None => None,
    }
}

/// Looks up the task with the given id, preferring the last match.
fn find_task(tasks: &Vec<Task>, id: &String) -> (r: Option<Task>)
    ensures
        opt_task_view(r) == task_for(tasks_view(tasks@), id@),
{
    let ghost tv = tasks_view(tasks@);
    let mut j: usize = tasks.len();
    proof {
        assert(tv.take(j as int) =~= tv);
    }
    while j > 0
        invariant
            j <= tasks.len(),
            tv == tasks_view(tasks@),
            task_for(tv, id@) == task_for(tv.take(j as int), id@),
        decreases j,
    {
        j -= 1;
        proof {
            assert(tv.take(j + 1 as int).drop_last() =~= tv.take(j as int));
            assert(tv.take(j + 1 as int).last() == tv[j as int]);
        }
        if tasks[j].id == *id {
            return Some(Task { id: tasks[j].id.clone(), name: tasks[j].name.clone() });
        }
    }
    proof {
        assert(tv.take(0).len() == 0);
    }
    None
}

/// Resolves task ids in time entries to the corresponding tasks and fills
/// their `task` fields with the task data.
pub fn resolve_task_ids(time_entries: Vec<TimeEntry>, tasks: Vec<Task>) -> (r: Vec<TimeEntry>)
    ensures
        r@.len() == time_entries@.len(),
        forall|i: int|
            0 <= i < r@.len() ==> r@[i]@ == resolve_entry_spec(
                time_entries@[i]@,
                tasks_view(tasks@),
            ),
{
    let ghost orig = time_entries@;
    let mut remaining = time_entries;
    let mut result: Vec<TimeEntry> = Vec::new();
    while remaining.len() > 0
        invariant
            result@.len() + remaining@.len() == orig.len(),
            remaining@ == orig.skip(result@.len() as int),
            forall|i: int|
                0 <= i < result@.len() ==> result@[i]@ == resolve_entry_spec(
                    orig[i]@,
                    tasks_view(tasks@),
                ),
        decreases remaining@.len(),
    {
        let ghost k = result@.len() as int;
        let entry = remaining.remove(0);
        proof {
            assert(entry == orig[k]);
            assert(remaining@ =~= orig.skip(k + 1));
        }
        let resolved = resolve_entry(entry, &tasks);
        result.push(resolved);
    }
    result
}

/// Resolves one entry's task id, if it has one.
fn resolve_entry(entry: TimeEntry, tasks: &Vec<Task>) -> (r: TimeEntry)
    ensures
        r@ == resolve_entry_spec(entry@, tasks_view(tasks@)),
{
    let TimeEntry { description, billable, task_id, time_interval, task } = entry;
    match task_id {
        Some(id) => {
            let task = find_task(tasks, &id);
            TimeEntry { description, billable, task_id: Some(id), time_interval, task }
        },
        None => TimeEntry { description, billable, task_id: None, time_interval, task },
    }
}

/// The first instant of the given month, rendered in the query format the
/// tracking service expects.
pub open spec fn month_start_str(year: int, month: int) -> Seq<char> {
    dec_str(year as nat) + ("-")@ + two_digit_str(month) + ("-01T00:00:00Z")@
}

/// The first instant of the month after the given one, rendered the same way.
pub open spec fn month_end_str(year: int, month: int) -> Seq<char> {
    if month == 12 {
        month_start_str(year + 1, 1)
    } else {
        month_start_str(year, month + 1)
    }
}

/// The start and end filter values limiting a time-entry query to one year
/// and month.
pub struct StartEndRange {
    pub year: u32,
    pub month: u32,
}

impl StartEndRange {
    /// The month is a calendar month and the year leaves room for the
    /// following January.
    pub open spec fn wf(self) -> bool {
        &&& 1 <= self.month <= 12
        &&& self.year < u32::MAX
    }

    /// Builds the range for the given year and month.
    pub fn from_year_and_month(year: u32, month: u32) -> (r: Self)
        ensures
            r.year == year,
            r.month == month,
    {
        Self { year, month }
    }

    /// The query value for the start of the range: the month's first instant.
    pub fn start(&self) -> (r: String)
        requires
            self.wf(),
        ensures
            r@ == month_start_str(self.year as int, self.month as int),
    {
        let mut s = format_u64(self.year as u64);
        s.append("-");
        let m = format_two_digit(self.month as u64);
        s.append(m.as_str());
        s.append("-01T00:00:00Z");
        s
    }

    /// The query value for the end of the range: the first instant of the
    /// following month.
    pub fn end(&self) -> (r: String)
        requires
            self.wf(),
        ensures
            r@ == month_end_str(self.year as int, self.month as int),
    {
        let (year, month) = if self.month == 12 {
            (self.year + 1, 1)
        } else {
            (self.year, self.month + 1)
        };
        let mut s = format_u64(year as u64);
        s.append("-");
        let m = format_two_digit(month as u64);
        s.append(m.as_str());
        s.append("-01T00:00:00Z");
        s
    }
}

} // verus!
