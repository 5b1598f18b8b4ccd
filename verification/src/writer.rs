//! Rendering of timesheet rows as CSV text.
//!
//! Times are rounded to the nearest minute, breaks under half a minute stay
//! empty, and a row repeating the previous row's date shows an empty date
//! field. Fields are quoted exactly when they hold a delimiter, a quote or a
//! line break.

use vstd::prelude::*;
use crate::decimal::dec_str;
use crate::decimal::two_digit_str;
use crate::decimal::format_u64;
use crate::decimal::format_two_digit;
use crate::decimal::push_char;
use crate::timestamp::Timestamp;
use crate::timestamp::TimestampV;
use crate::transform::TimeSheetEntry;
use crate::transform::TimeSheetEntryV;
use crate::transform::rows_view;

verus! {

/// The hour of a time of day after rounding to the nearest minute: seconds
/// of thirty and more round the minute up, carrying into the hour.
pub open spec fn rounded_hour(t: TimestampV) -> int {
    if t.second >= 30 && t.minute == 59 {
        t.hour + 1
    } else {
        t.hour
    }
}

/// The minute of a time of day after rounding to the nearest minute.
pub open spec fn rounded_minute(t: TimestampV) -> int {
    if t.second >= 30 {
        if t.minute == 59 {
            0
        } else {
            t.minute + 1
        }
    } else {
        t.minute
    }
}

/// A start or end field: `HH:MM`, rounded to the nearest minute.
pub open spec fn time_field_str(t: TimestampV) -> Seq<char> {
    two_digit_str(rounded_hour(t)) + (":")@ + two_digit_str(rounded_minute(t))
}

/// A date field: `DD.MM.YY`.
pub open spec fn date_str(t: TimestampV) -> Seq<char> {
    two_digit_str(t.day) + (".")@ + two_digit_str(t.month) + (".")@ + two_digit_str(t.year % 100)
}

/// The break's hour after rounding the duration to the nearest minute.
pub open spec fn break_hour(secs: nat) -> nat {
    if secs % 60 >= 30 && (secs / 60) % 60 == 59 {
        secs / 3600 + 1
    } else {
        secs / 3600
    }
}

/// The break's minute within the hour after rounding to the nearest minute.
pub open spec fn break_minute(secs: nat) -> int {
    if secs % 60 >= 30 {
        if (secs / 60) % 60 == 59 {
            0
        } else {
            ((secs / 60) % 60) as int + 1
        }
    } else {
        ((secs / 60) % 60) as int
    }
}

/// A break field: empty for a duration under thirty seconds, else `H:MM`
/// with the hour unpadded and the duration rounded to the nearest minute.
pub open spec fn break_field_str(secs: nat) -> Seq<char> {
    if secs < 30 {
        Seq::empty()
    } else {
        dec_str(break_hour(secs)) + (":")@ + two_digit_str(break_minute(secs))
    }
}

/// A character that forces a CSV field into quotes.
pub open spec fn quote_forcing(c: char) -> bool {
    c == ',' || c == '"' || c == '\n' || c == '\r'
}

/// Whether a field must be quoted.
pub open spec fn needs_quoting(s: Seq<char>) -> bool {
    exists|i: int| 0 <= i < s.len() && quote_forcing(#[trigger] s[i])
}

/// The field's characters with every quote doubled.
pub open spec fn doubled_quotes(s: Seq<char>) -> Seq<char>
    decreases s.len(),
{
    if s.len() == 0 {
        Seq::empty()
    } else {
        doubled_quotes(s.drop_last()) + (if s.last() == '"' {
            seq!['"', '"']
        } else {
            seq![s.last()]
        })
    }
}

/// A rendered CSV field: verbatim, or quoted with inner quotes doubled
/// exactly when the field holds a delimiter, a quote or a line break.
pub open spec fn csv_field(s: Seq<char>) -> Seq<char> {
    if needs_quoting(s) {
        seq!['"'] + doubled_quotes(s) + seq!['"']
    } else {
        s
    }
}

/// One CSV record: the five fields, comma-separated, closed by a newline.
pub open spec fn csv_row_str(date: Seq<char>, row: TimeSheetEntryV) -> Seq<char> {
    csv_field(date) + (",")@ + csv_field(time_field_str(row.start)) + (",")@ + csv_field(
        time_field_str(row.end),
    ) + (",")@ + csv_field(break_field_str(row.break_seconds as nat)) + (",")@ + csv_field(
        row.description,
    ) + ("\n")@
}

/// The date field shown for row `i`: a row repeating the previous row's
/// rendered date shows an empty field; the first row, and every row whose
/// date differs from its predecessor's, shows its date.
pub open spec fn shown_date(rows: Seq<TimeSheetEntryV>, i: int) -> Seq<char> {
    if i > 0 && date_str(rows[i].start) == date_str(rows[i - 1].start) {
        Seq::empty()
    } else {
        date_str(rows[i].start)
    }
}

/// The CSV records for the rows, in order.
pub open spec fn csv_rows_str(rows: Seq<TimeSheetEntryV>) -> Seq<char>
    decreases rows.len(),
{
    if rows.len() == 0 {
        Seq::empty()
    } else {
        csv_rows_str(rows.drop_last()) + csv_row_str(
            shown_date(rows, rows.len() - 1),
            rows.last(),
        )
    }
}

/// The fixed header record.
pub open spec fn csv_header_str() -> Seq<char> {
    ("date,start,end,break,description\n")@
}

/// The whole report: the header record, then one record per row.
pub open spec fn csv_text(rows: Seq<TimeSheetEntryV>) -> Seq<char> {
    csv_header_str() + csv_rows_str(rows)
}

/// A row repeating the previous row's rendered calendar date shows an empty
/// date field; the first row, and every row on a new date, shows its date.
pub proof fn lemma_date_dedup(rows: Seq<TimeSheetEntryV>, i: int)
    requires
        0 <= i < rows.len(),
    ensures
        i == 0 ==> shown_date(rows, i) == date_str(rows[0].start),
        (i > 0 && date_str(rows[i].start) == date_str(rows[i - 1].start)) ==> shown_date(rows, i)
            == Seq::<char>::empty(),
        (i > 0 && date_str(rows[i].start) != date_str(rows[i - 1].start)) ==> shown_date(rows, i)
            == date_str(rows[i].start),
{
}

/// Formats a start or end time as `HH:MM`, rounding up to the next minute
/// when the second is thirty or more.
pub fn format_time_field(time: &Timestamp) -> (r: String)
    requires
        time@.wf(),
    ensures
        r@ == time_field_str(time@),
{
    let mut hour = time.hour;
    let mut minute = time.minute;
    if time.second >= 30 {
        minute = minute + 1;
    }
    if minute >= 60 {
        minute = minute - 60;
        hour = hour + 1;
    }
    let mut s = format_two_digit(hour as u64);
    s.append(":");
    let m = format_two_digit(minute as u64);
    s.append(m.as_str());
    proof {
        assert(s@ =~= time_field_str(time@));
    }
    s
}

/// Formats a date as `DD.MM.YY`.
pub fn format_date_field(time: &Timestamp) -> (r: String)
    requires
        time@.wf(),
    ensures
        r@ == date_str(time@),
{
    let mut s = format_two_digit(time.day as u64);
    s.append(".");
    let m = format_two_digit(time.month as u64);
    s.append(m.as_str());
    s.append(".");
    let y = format_two_digit((time.year % 100) as u64);
    s.append(y.as_str());
    proof {
        assert(s@ =~= date_str(time@));
    }
    s
}

/// Formats a break duration in seconds as `H:MM`, rounding to the nearest
/// minute, or as the empty string for a duration under thirty seconds.
pub fn format_break_field(seconds: u64) -> (r: String)
    ensures
        r@ == break_field_str(seconds as nat),
{
    if seconds < 30 {
        return String::new();
    }
    let mut hour = seconds / 3600;
    let mut minute = (seconds / 60) % 60;
    if seconds % 60 >= 30 {
        minute = minute + 1;
    }
    if minute >= 60 {
        minute = minute - 60;
        hour = hour + 1;
    }
    let mut s = format_u64(hour);
    s.append(":");
    let m = format_two_digit(minute);
    s.append(m.as_str());
    proof {
        assert(s@ =~= break_field_str(seconds as nat));
    }
    s
}

/// Whether a field's text forces quoting.
fn field_needs_quoting(field: &str) -> (b: bool)
    ensures
        b == needs_quoting(field@),
{
    let n = field.unicode_len();
    let mut needs = false;
    let mut i: usize = 0;
    while i < n
        invariant
            i <= n,
            n == field@.len(),
            needs == exists|j: int| 0 <= j < i && quote_forcing(#[trigger] field@[j]),
        decreases n - i,
    {
        let c = field.get_char(i);
        if c == ',' || c == '"' || c == '\n' || c == '\r' {
            proof {
                assert(quote_forcing(field@[i as int]));
            }
            needs = true;
        }
        i = i + 1;
    }
    needs
}

/// Renders one CSV field, quoting it exactly when it needs quoting.
fn escape_field(field: &str) -> (r: String)
    ensures
        r@ == csv_field(field@),
{
    if !field_needs_quoting(field) {
        return field.to_owned();
    }
    let n = field.unicode_len();
    let mut s = String::new();
    push_char(&mut s, '"');
    let mut i: usize = 0;
    proof {
        assert(field@.take(0) =~= Seq::<char>::empty());
        assert(s@ =~= seq!['"'] + doubled_quotes(field@.take(0)));
    }
    while i < n
        invariant
            i <= n,
            n == field@.len(),
            s@ == seq!['"'] + doubled_quotes(field@.take(i as int)),
        decreases n - i,
    {
        let c = field.get_char(i);
        if c == '"' {
            push_char(&mut s, '"');
            push_char(&mut s, '"');
        } else {
            push_char(&mut s, c);
        }
        proof {
            assert(field@.take(i + 1).drop_last() =~= field@.take(i as int));
            assert(field@.take(i + 1).last() == field@[i as int]);
            assert(s@ =~= seq!['"'] + doubled_quotes(field@.take(i + 1)));
        }
        i = i + 1;
    }
    push_char(&mut s, '"');
    proof {
        assert(field@.take(n as int) =~= field@);
        assert(s@ =~= csv_field(field@));
    }
    s
}

/// Every row's timestamps are plausible calendar values.
pub open spec fn rows_wf(rows: Seq<TimeSheetEntryV>) -> bool {
    forall|i: int|
        0 <= i < rows.len() ==> (#[trigger] rows[i]).start.wf() && rows[i].end.wf()
}

/// Renders the timesheet rows as CSV text: the fixed header, then one record
/// per row with times rounded to the nearest minute, breaks under half a
/// minute left empty, and the date only shown for the first row of each day.
#[verifier::loop_isolation(false)]
pub fn write_csv(time_sheet_entries: &Vec<TimeSheetEntry>) -> (r: String)
    requires
        rows_wf(rows_view(time_sheet_entries@)),
    ensures
        r@ == csv_text(rows_view(time_sheet_entries@)),
{
    let ghost rows = rows_view(time_sheet_entries@);
    let ghost n = rows.len() as int;
    let mut out = String::new();
    out.append("date,start,end,break,description\n");
    let mut idx: usize = 0;
    proof {
        assert(csv_rows_str(rows.take(0)) =~= Seq::<char>::empty());
        assert(out@ =~= csv_text(rows.take(0)));
    }
    while idx < time_sheet_entries.len()
        invariant
            idx <= n,
            out@ == csv_text(rows.take(idx as int)),
        decreases n - idx,
    {
        let entry = &time_sheet_entries[idx];
        proof {
            assert(rows_view(time_sheet_entries@)[idx as int] == time_sheet_entries@[idx as int]@);
            assert(entry@ == rows[idx as int]);
        }
        let date = format_date_field(&entry.start);
        let date_field = if idx > 0 {
            proof {
                assert(rows_view(time_sheet_entries@)[idx - 1] == time_sheet_entries@[idx - 1]@);
            }
            let prev_date = format_date_field(&time_sheet_entries[idx - 1].start);
            if prev_date == date {
                String::new()
            } else {
                date
            }
        } else {
            date
        };
        proof {
            assert(date_field@ == shown_date(rows, idx as int));
        }
        let mut line = escape_field(date_field.as_str());
        push_char(&mut line, ',');
        let t = format_time_field(&entry.start);
        let f = escape_field(t.as_str());
        line.append(f.as_str());
        push_char(&mut line, ',');
        let t = format_time_field(&entry.end);
        let f = escape_field(t.as_str());
        line.append(f.as_str());
        push_char(&mut line, ',');
        let t = format_break_field(entry.break_);
        let f = escape_field(t.as_str());
        line.append(f.as_str());
        push_char(&mut line, ',');
        let f = escape_field(entry.description.as_str());
        line.append(f.as_str());
        push_char(&mut line, '\n');
        proof {
            reveal_strlit(",");
            reveal_strlit("\n");
            assert(line@ =~= csv_row_str(shown_date(rows, idx as int), rows[idx as int]));
        }
        out.append(line.as_str());
        proof {
            assert(rows.take(idx + 1).drop_last() =~= rows.take(idx as int));
            assert(rows.take(idx + 1).last() == rows[idx as int]);
            assert(shown_date(rows.take(idx + 1), idx as int) == shown_date(rows, idx as int));
            assert(out@ =~= csv_text(rows.take(idx + 1)));
        }
        idx = idx + 1;
    }
    proof {
        assert(rows.take(n) =~= rows);
    }
    out
}

} // verus!
