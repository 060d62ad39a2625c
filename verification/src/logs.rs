//! The application's own log: the last 500 entries, which the log page
//! filters by level and the user can save, and the last 100 lines of the
//! system log shown beside it.

use vstd::prelude::*;
use crate::models::is_clock_stamp;
use crate::text::{append_chars, chars_of, join, string_from_chars, str_eq, trim, trim_str};

verus! {

/// One entry of the log.
#[derive(Debug, Clone)]
pub struct LogEntry {
    pub level: String,
    pub message: String,
    pub timestamp: String,
}

/// The most entries the log keeps.
pub const MAX_LOG_ENTRIES: usize = 500;

/// The most lines the system log keeps.
pub const MAX_SYSTEM_LINES: usize = 100;

/// The log: at most [`MAX_LOG_ENTRIES`] entries, oldest first.
pub struct LogBuffer {
    entries: Vec<LogEntry>,
}

/// An entry as plain values: level, message and time.
pub open spec fn entry_view(e: LogEntry) -> (Seq<char>, Seq<char>, Seq<char>) {
    (e.level@, e.message@, e.timestamp@)
}

pub open spec fn entries_view(es: Seq<LogEntry>) -> Seq<(Seq<char>, Seq<char>, Seq<char>)> {
    es.map_values(|e: LogEntry| entry_view(e))
}

/// The log after one more entry: added last, the oldest dropped when there
/// would be more than `cap`.
pub open spec fn appended(log: Seq<(Seq<char>, Seq<char>, Seq<char>)>, e: (Seq<char>, Seq<char>, Seq<char>), cap: nat) -> Seq<(Seq<char>, Seq<char>, Seq<char>)> {
    let l = log.push(e);
    if l.len() > cap { l.drop_first() } else { l }
}

/// The log after a run of entries recorded one after the other into an
/// empty log.
pub open spec fn log_after(calls: Seq<(Seq<char>, Seq<char>, Seq<char>)>) -> Seq<(Seq<char>, Seq<char>, Seq<char>)>
    decreases calls.len(),
{
    if calls.len() == 0 {
        Seq::empty()
    } else {
        appended(log_after(calls.drop_last()), calls.last(), MAX_LOG_ENTRIES as nat)
    }
}

/// After any run of entries recorded into an empty log, the log holds the
/// last of them, at most [`MAX_LOG_ENTRIES`], in the order they were
/// recorded.
pub proof fn lemma_log_keeps_last(calls: Seq<(Seq<char>, Seq<char>, Seq<char>)>)
    ensures
        log_after(calls) == calls.subrange(
            if calls.len() > MAX_LOG_ENTRIES { calls.len() - MAX_LOG_ENTRIES } else { 0 },
            calls.len() as int,
        ),
    decreases calls.len(),
{
    if calls.len() > 0 {
        let n = calls.len() as int;
        let prev = calls.drop_last();
        lemma_log_keeps_last(prev);
        let s: int = if n - 1 > MAX_LOG_ENTRIES { n - 1 - MAX_LOG_ENTRIES } else { 0 };
        assert(prev.subrange(s, n - 1) =~= calls.subrange(s, n - 1));
        let l = calls.subrange(s, n - 1).push(calls.last());
        assert(l =~= calls.subrange(s, n));
        if l.len() > MAX_LOG_ENTRIES {
            assert(l.drop_first() =~= calls.subrange(s + 1, n));
        }
    } else {
        assert(calls.subrange(0, 0) =~= calls);
    }
}

impl LogBuffer {
    pub closed spec fn view_entries(&self) -> Seq<(Seq<char>, Seq<char>, Seq<char>)> {
        entries_view(self.entries@)
    }

    /// The log holds no more entries than it keeps.
    pub closed spec fn well_formed(&self) -> bool {
        self.entries@.len() <= MAX_LOG_ENTRIES
    }

    pub fn new() -> (r: LogBuffer)
        ensures
            r.well_formed(),
            r.view_entries() == Seq::<(Seq<char>, Seq<char>, Seq<char>)>::empty(),
    {
        let r = LogBuffer { entries: Vec::new() };
        assert(r.view_entries() =~= Seq::<(Seq<char>, Seq<char>, Seq<char>)>::empty());
        r
    }

    /// The number of entries.
    pub fn len(&self) -> (n: usize)
        ensures
            n == self.view_entries().len(),
    {
        self.entries.len()
    }

    /// Adds an entry written at `timestamp`; the message is trimmed, and
    /// the oldest entry goes when the log is full.
    pub fn record_at(&mut self, level: &str, message: &str, timestamp: &str)
        requires
            old(self).well_formed(),
        ensures
            final(self).well_formed(),
            final(self).view_entries() == appended(old(self).view_entries(), (level@, trim(message@), timestamp@), MAX_LOG_ENTRIES as nat),
    {
        let ghost before = self.entries@;
        let e = LogEntry {
            level: level.to_string(),
            message: string_from_chars(trim_str(message).as_slice()),
            timestamp: timestamp.to_string(),
        };
        let ghost ev = entry_view(e);
        self.entries.push(e);
        assert(entries_view(self.entries@) =~= entries_view(before).push(ev));
        if self.entries.len() > MAX_LOG_ENTRIES {
            let ghost full = self.entries@;
            self.entries.remove(0);
            assert(entries_view(self.entries@) =~= entries_view(full).drop_first());
        }
    }

    /// Adds an entry written now (the time of day, `%H:%M:%S` in UTC).
    pub fn record(&mut self, level: &str, message: &str)
        requires
            old(self).well_formed(),
        ensures
            final(self).well_formed(),
            exists|t: Seq<char>| is_clock_stamp(t) && final(self).view_entries() == #[trigger] appended(old(self).view_entries(), (level@, trim(message@), t), MAX_LOG_ENTRIES as nat),
    {
        let t = clock_of_day();
        self.record_at(level, message, t.as_str());
    }

    /// The entries of one level, or all of them for `ALL`, oldest first.
    pub fn filtered(&self, filter: &str) -> (r: Vec<LogEntry>)
        ensures
            entries_view(r@) == level_filter(self.view_entries(), filter@),
    {
        let all = str_eq(filter, "ALL");
        let mut r: Vec<LogEntry> = Vec::new();
        let mut i: usize = 0;
        let ghost es = entries_view(self.entries@);
        assert(es.take(0) =~= Seq::<(Seq<char>, Seq<char>, Seq<char>)>::empty());
        while i < self.entries.len()
            invariant
                i <= self.entries@.len(),
                es == entries_view(self.entries@),
                all == (filter@ == "ALL"@),
                entries_view(r@) == level_filter(es.take(i as int), filter@),
            decreases self.entries.len() - i,
        {
            assert(es.take(i + 1).drop_last() =~= es.take(i as int));
            if all || str_eq(self.entries[i].level.as_str(), filter) {
                let ghost before = r@;
                let e = &self.entries[i];
                r.push(LogEntry { level: e.level.clone(), message: e.message.clone(), timestamp: e.timestamp.clone() });
                assert(entries_view(r@) =~= entries_view(before).push(es[i as int]));
            }
            i = i + 1;
        }
        assert(es.take(es.len() as int) =~= es);
        r
    }

    /// The text of the log as saved to a file: a line `[time] level: message`
    /// per entry, oldest first.
    pub fn file_text(&self) -> (r: String)
        ensures
            r@ == join(self.view_entries().map_values(|e: (Seq<char>, Seq<char>, Seq<char>)| log_line(e)), "\n"@),
    {
        let mut lines: Vec<Vec<char>> = Vec::new();
        let mut i: usize = 0;
        let ghost es = entries_view(self.entries@);
        let ghost want = es.map_values(|e: (Seq<char>, Seq<char>, Seq<char>)| log_line(e));
        while i < self.entries.len()
            invariant
                i <= self.entries@.len(),
                es == entries_view(self.entries@),
                want == es.map_values(|e: (Seq<char>, Seq<char>, Seq<char>)| log_line(e)),
                lines@.len() == i,
                forall|k: int| 0 <= k < i ==> #[trigger] lines@[k]@ == want[k],
            decreases self.entries.len() - i,
        {
            let e = &self.entries[i];
            let mut l = chars_of("[");
            append_chars(&mut l, chars_of(e.timestamp.as_str()).as_slice());
            append_chars(&mut l, chars_of("] ").as_slice());
            append_chars(&mut l, chars_of(e.level.as_str()).as_slice());
            append_chars(&mut l, chars_of(": ").as_slice());
            append_chars(&mut l, chars_of(e.message.as_str()).as_slice());
            assert(l@ =~= log_line(es[i as int]));
            lines.push(l);
            i = i + 1;
        }
        assert(lines@.map_values(|p: Vec<char>| p@) =~= want);
        let joined = crate::text::join_chars(&lines, chars_of("\n").as_slice());
        string_from_chars(joined.as_slice())
    }
}

/// The entries a filter shows: all for `ALL`, else those of that level.
pub open spec fn level_filter(es: Seq<(Seq<char>, Seq<char>, Seq<char>)>, filter: Seq<char>) -> Seq<(Seq<char>, Seq<char>, Seq<char>)>
    decreases es.len(),
{
    if es.len() == 0 {
        Seq::empty()
    } else {
        let r = level_filter(es.drop_last(), filter);
        if filter == "ALL"@ || es.last().0 == filter { r.push(es.last()) } else { r }
    }
}

/// A saved line of the log.
pub open spec fn log_line(e: (Seq<char>, Seq<char>, Seq<char>)) -> Seq<char> {
    "["@ + e.2 + "] "@ + e.0 + ": "@ + e.1
}

/// The time of day in UTC: `Utc::now()` formatted `%H:%M:%S`. Which time
/// it is is the clock's; the form is chrono's (no leap second, as the clock
/// is read in whole seconds and nanoseconds below one second).
#[verifier::external_body]
fn clock_of_day() -> (r: String)
    ensures
        is_clock_stamp(r@),
{
    chrono::Utc::now().format("%H:%M:%S").to_string()
}

// ---------------------------------------------------------------------------
// The system log.
// ---------------------------------------------------------------------------

/// The last lines of the system log, at most [`MAX_SYSTEM_LINES`].
pub struct SystemLog {
    lines: Vec<String>,
}

impl SystemLog {
    pub closed spec fn view_lines(&self) -> Seq<Seq<char>> {
        self.lines@.map_values(|l: String| l@)
    }

    pub closed spec fn well_formed(&self) -> bool {
        self.lines@.len() <= MAX_SYSTEM_LINES
    }

    pub fn new() -> (r: SystemLog)
        ensures
            r.well_formed(),
            r.view_lines() == Seq::<Seq<char>>::empty(),
    {
        let r = SystemLog { lines: Vec::new() };
        assert(r.view_lines() =~= Seq::<Seq<char>>::empty());
        r
    }

    /// Adds a message, trimmed, and returns the text the log view shows:
    /// the kept lines joined by line breaks.
    pub fn push(&mut self, message: &str) -> (r: String)
        requires
            old(self).well_formed(),
        ensures
            final(self).well_formed(),
            final(self).view_lines() == ({
                let l = old(self).view_lines().push(trim(message@));
                if l.len() > MAX_SYSTEM_LINES { l.drop_first() } else { l }
            }),
            r@ == join(final(self).view_lines(), "\n"@),
    {
        let ghost before = self.lines@;
        let t = string_from_chars(trim_str(message).as_slice());
        let ghost tv = t@;
        self.lines.push(t);
        assert(self.lines@.map_values(|l: String| l@) =~= before.map_values(|l: String| l@).push(tv));
        if self.lines.len() > MAX_SYSTEM_LINES {
            let ghost full = self.lines@;
            self.lines.remove(0);
            assert(self.lines@.map_values(|l: String| l@) =~= full.map_values(|l: String| l@).drop_first());
        }
        let mut parts: Vec<Vec<char>> = Vec::new();
        let mut i: usize = 0;
        while i < self.lines.len()
            invariant
                i <= self.lines@.len(),
                parts@.len() == i,
                forall|k: int| 0 <= k < i ==> #[trigger] parts@[k]@ == self.lines@[k]@,
            decreases self.lines.len() - i,
        {
            parts.push(chars_of(self.lines[i].as_str()));
            i = i + 1;
        }
        assert(parts@.map_values(|p: Vec<char>| p@) =~= self.lines@.map_values(|l: String| l@));
        let joined = crate::text::join_chars(&parts, chars_of("\n").as_slice());
        string_from_chars(joined.as_slice())
    }
}

} // verus!
