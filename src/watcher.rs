//! The kernel log watcher: which log entries are new, which of them report an
//! out-of-memory kill, the process id they name, and its correlation with the
//! process table cache.

use crate::cache::{take_entries, value_of, Entry, ProcessTableCache};
use crate::text::{
    all_digits, chars_of, contains_chars, contains_seq, decimal_value, digits_value,
    first_numeric_token, is_first_numeric_token, is_numeric_token, lemma_token_end_unique, lower_of, lowercase,
};
use vstd::prelude::*;

verus! {

/// The text, in lower case, whose presence marks an out-of-memory kill report.
pub open spec fn signature() -> Seq<char> {
    seq!['o', 'u', 't', ' ', 'o', 'f', ' ', 'm', 'e', 'm', 'o', 'r', 'y', ':']
}

fn signature_chars() -> (r: Vec<char>)
    ensures
        r@ == signature(),
{
    let r = vec!['o', 'u', 't', ' ', 'o', 'f', ' ', 'm', 'e', 'm', 'o', 'r', 'y', ':'];
    assert(r@ =~= signature());
    r
}

/// The largest process id that the log can name.
pub const PID_LIMIT: u64 = 2147483647;

/// The process id that a line names: its first numeric token, read as a decimal
/// number, where that token is ASCII digits of a value that fits a pid.
pub open spec fn pid_of(s: Seq<char>) -> Option<i32> {
    if exists|a: int, b: int| is_first_numeric_token(s, a, b) {
        let p = choose|p: (int, int)| is_first_numeric_token(s, p.0, p.1);
        let t = s.subrange(p.0, p.1);
        if all_digits(t) && digits_value(t) <= PID_LIMIT {
            Some(digits_value(t) as i32)
        } else {
            None
        }
    } else {
        None
    }
}

/// The process id that an already lower-cased line reports as killed: none
/// unless the line holds the signature.
pub open spec fn oom_pid(lowered: Seq<char>) -> Option<i32> {
    if contains_seq(lowered, signature()) {
        pid_of(lowered)
    } else {
        None
    }
}

/// The process id that a kernel log message reports as killed.
pub open spec fn candidate_pid(message: Seq<char>) -> Option<i32> {
    oom_pid(lower_of(message))
}

/// The process id that `line` names (see `pid_of`).
pub fn extract_pid(line: &Vec<char>) -> (r: Option<i32>)
    ensures
        r == pid_of(line@),
{
    match first_numeric_token(line) {
        None => {
            assert(!exists|a: int, b: int| is_first_numeric_token(line@, a, b));
            None
        },
        Some((a, b)) => {
            let ghost p = choose|p: (int, int)| is_first_numeric_token(line@, p.0, p.1);
            proof {
                assert(is_first_numeric_token(line@, a as int, b as int));
                assert(is_first_numeric_token(line@, p.0, p.1));
                assert(!is_numeric_token(line@, p.0, p.1) || p.0 >= a);
                assert(!is_numeric_token(line@, a as int, b as int) || a >= p.0);
                lemma_token_end_unique(line@, a as int, b as int, p.1);
            }
            match decimal_value(line, a, b, PID_LIMIT) {
                Some(v) => Some(v as i32),
                None => None,
            }
        },
    }
}

/// The process id that an already lower-cased kernel log message reports as killed.
pub fn oom_pid_in_lowered(lowered: &str) -> (r: Option<i32>)
    ensures
        r == oom_pid(lowered@),
{
    let line = chars_of(lowered);
    let sig = signature_chars();
    if contains_chars(&line, &sig) {
        extract_pid(&line)
    } else {
        None
    }
}

/// The process id that a kernel log message reports as killed, matched without
/// regard to case.
pub fn candidate_pid_of(message: &str) -> (r: Option<i32>)
    ensures
        r == candidate_pid(message@),
{
    let lowered = lowercase(message);
    oom_pid_in_lowered(lowered.as_str())
}

/// One entry read from the kernel ring buffer.
pub struct LogEntry {
    pub message: String,
    /// Nanoseconds since boot, where the entry carries a time.
    pub since_boot_ns: Option<u64>,
}

/// The time of an entry; one without a time counts as the moment of boot.
pub open spec fn entry_time(e: LogEntry) -> u64 {
    match e.since_boot_ns {
        Some(t) => t,
        None => 0,
    }
}

/// The result of correlating a reported pid with the cache.
pub enum Correlation {
    /// The pid was cached with this command line; the entry has been consumed.
    Hit { pid: i32, cmdline: String },
    /// No command line is known for the pid.
    Miss { pid: i32 },
}

/// A correlation as the pid and the command line found for it, if any.
pub type Outcome = (i32, Option<Seq<char>>);

impl Correlation {
    /// The pid, and the command line where one was found.
    pub open spec fn view(&self) -> Outcome {
        match self {
            Correlation::Hit { pid, cmdline } => (*pid, Some(cmdline@)),
            Correlation::Miss { pid } => (*pid, None),
        }
    }
}

/// The correlations as their views.
pub open spec fn outcomes(cs: Seq<Correlation>) -> Seq<Outcome> {
    cs.map_values(|c: Correlation| c.view())
}

/// One poll cycle over `es`, from watermark `wm` and cache entries `cache`: the
/// watermark, the cache entries and the correlations after it. An entry no
/// later than the watermark is passed over; any other advances the watermark
/// to its time and, where it reports a killed pid, consumes that pid's entry.
pub open spec fn cycle(wm: u64, cache: Seq<Entry>, es: Seq<LogEntry>) -> (u64, Seq<Entry>, Seq<Outcome>)
    decreases es.len(),
{
    if es.len() == 0 {
        (wm, cache, Seq::empty())
    } else {
        let prev = cycle(wm, cache, es.drop_last());
        let t = entry_time(es.last());
        if t <= prev.0 {
            prev
        } else {
            match candidate_pid(es.last().message@) {
                None => (t, prev.1, prev.2),
                Some(pid) => (t, take_entries(prev.1, pid), prev.2.push((pid, value_of(prev.1, pid)))),
            }
        }
    }
}

/// Polls the kernel log and correlates reported kills with the process table.
pub struct KernelLogWatcher {
    /// Time since boot, in nanoseconds, of the latest entry processed.
    pub watermark: u64,
}

impl KernelLogWatcher {
    /// A watcher that ignores every entry up to `uptime_ns`.
    pub fn new(uptime_ns: u64) -> (w: Self)
        ensures
            w.watermark == uptime_ns,
    {
        KernelLogWatcher { watermark: uptime_ns }
    }

    /// Runs one poll cycle over the entries read from the ring buffer.
    pub fn poll(&mut self, cache: &mut ProcessTableCache, entries: &Vec<LogEntry>) -> (r: Vec<Correlation>)
        requires
            old(cache).wf(),
        ensures
            final(cache).wf(),
            final(cache).capacity() == old(cache).capacity(),
            final(self).watermark == cycle(old(self).watermark, old(cache).entries(), entries@).0,
            final(cache).entries() == cycle(old(self).watermark, old(cache).entries(), entries@).1,
            outcomes(r@) == cycle(old(self).watermark, old(cache).entries(), entries@).2,
    {
        let ghost wm0 = self.watermark;
        let ghost c0 = cache.entries();
        let mut out: Vec<Correlation> = Vec::new();
        let n = entries.len();
        let mut i: usize = 0;
        while i < n
            invariant
                n == entries@.len(),
                i <= n,
                cache.wf(),
                cache.capacity() == old(cache).capacity(),
                wm0 == old(self).watermark,
                c0 == old(cache).entries(),
                self.watermark == cycle(wm0, c0, entries@.take(i as int)).0,
                cache.entries() == cycle(wm0, c0, entries@.take(i as int)).1,
                outcomes(out@) == cycle(wm0, c0, entries@.take(i as int)).2,
            decreases n - i,
        {
            let e = &entries[i];
            assert(entries@.take(i + 1).drop_last() =~= entries@.take(i as int));
            assert(entries@.take(i + 1).last() == *e);
            let t = match e.since_boot_ns {
                Some(t) => t,
                None => 0,
            };
            if t > self.watermark {
                self.watermark = t;
                match candidate_pid_of(e.message.as_str()) {
                    None => {},
                    Some(pid) => {
                        let ghost before = cache.entries();
                        let ghost prev_out = outcomes(out@);
                        match cache.take(pid) {
                            Some(cmdline) => {
                                out.push(Correlation::Hit { pid, cmdline });
                            },
                            None => {
                                out.push(Correlation::Miss { pid });
                            },
                        }
                        assert(outcomes(out@) =~= prev_out.push((pid, value_of(before, pid))));
                    },
                }
            }
            i = i + 1;
        }
        assert(entries@.take(n as int) =~= entries@);
        out
    }
}

/// The watermark never moves back, and after a cycle it is at least the time
/// of every entry that the cycle saw.
pub proof fn lemma_cycle_watermark(wm: u64, cache: Seq<Entry>, es: Seq<LogEntry>)
    ensures
        wm <= cycle(wm, cache, es).0,
        forall|i: int| 0 <= i < es.len() ==> entry_time(#[trigger] es[i]) <= cycle(wm, cache, es).0,
    decreases es.len(),
{
    if es.len() > 0 {
        lemma_cycle_watermark(wm, cache, es.drop_last());
        assert forall|i: int| 0 <= i < es.len() implies entry_time(#[trigger] es[i]) <= cycle(wm, cache, es).0 by {
            if i < es.len() - 1 {
                assert(es[i] == es.drop_last()[i]);
            }
        }
    }
}

/// Entries no later than the watermark change nothing and produce no correlation.
pub proof fn lemma_stale_entries_ignored(wm: u64, cache: Seq<Entry>, es: Seq<LogEntry>)
    requires
        forall|i: int| 0 <= i < es.len() ==> entry_time(#[trigger] es[i]) <= wm,
    ensures
        cycle(wm, cache, es) == (wm, cache, Seq::<Outcome>::empty()),
    decreases es.len(),
{
    if es.len() > 0 {
        assert forall|i: int| 0 <= i < es.len() - 1 implies entry_time(#[trigger] es.drop_last()[i]) <= wm by {
            assert(es.drop_last()[i] == es[i]);
        }
        lemma_stale_entries_ignored(wm, cache, es.drop_last());
        assert(entry_time(es[es.len() - 1]) <= wm);
    }
}

/// Polling the same entries again right after a cycle dispatches nothing and
/// leaves the watermark and the cache as they were.
pub proof fn lemma_repoll_is_idempotent(wm: u64, cache: Seq<Entry>, es: Seq<LogEntry>)
    ensures
        cycle(cycle(wm, cache, es).0, cycle(wm, cache, es).1, es) == (
            cycle(wm, cache, es).0,
            cycle(wm, cache, es).1,
            Seq::<Outcome>::empty(),
        ),
{
    lemma_cycle_watermark(wm, cache, es);
    lemma_stale_entries_ignored(cycle(wm, cache, es).0, cycle(wm, cache, es).1, es);
}

} // verus!
