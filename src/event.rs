//! The structured event built for each correlated out-of-memory kill.

use crate::text::push_char;
use vstd::prelude::*;

verus! {

/// The ASCII digit for `d`, which is below ten.
pub open spec fn digit_char(d: nat) -> char {
    (('0' as u32) + d) as char
}

/// The decimal digits of `n`, most significant first, without leading zeros.
pub open spec fn decimal_digits(n: nat) -> Seq<char>
    decreases n,
{
    if n < 10 {
        seq![digit_char(n)]
    } else {
        decimal_digits(n / 10).push(digit_char(n % 10))
    }
}

/// `n` written in decimal, with a leading `-` when negative.
pub open spec fn int_text(n: int) -> Seq<char> {
    if n < 0 {
        seq!['-'] + decimal_digits((-n) as nat)
    } else {
        decimal_digits(n as nat)
    }
}

fn digit(d: u64) -> (c: char)
    requires
        d < 10,
    ensures
        c == digit_char(d as nat),
{
    if d == 0 {
        '0'
    } else if d == 1 {
        '1'
    } else if d == 2 {
        '2'
    } else if d == 3 {
        '3'
    } else if d == 4 {
        '4'
    } else if d == 5 {
        '5'
    } else if d == 6 {
        '6'
    } else if d == 7 {
        '7'
    } else if d == 8 {
        '8'
    } else {
        '9'
    }
}

fn push_decimal(out: &mut String, n: u64)
    ensures
        final(out)@ == old(out)@ + decimal_digits(n as nat),
    decreases n,
{
    if n >= 10 {
        push_decimal(out, n / 10);
    }
    let c = digit(n % 10);
    push_char(out, c);
    proof {
        if n >= 10 {
            assert(old(out)@ + decimal_digits(n as nat) =~= old(out)@ + decimal_digits((n / 10) as nat) + seq![digit_char((n % 10) as nat)]);
        }
    }
    assert(final(out)@ =~= old(out)@ + decimal_digits(n as nat));
}

/// `n` written in decimal.
pub fn decimal_text(n: u64) -> (r: String)
    ensures
        r@ == decimal_digits(n as nat),
{
    let mut out = String::new();
    push_decimal(&mut out, n);
    assert(out@ =~= decimal_digits(n as nat));
    out
}

/// `n` written in decimal, with a leading `-` when negative.
pub fn int_to_text(n: i64) -> (r: String)
    ensures
        r@ == int_text(n as int),
{
    let mut out = String::new();
    if n < 0 {
        push_char(&mut out, '-');
        let m: u64 = if n == i64::MIN { 9223372036854775808u64 } else { (-n) as u64 };
        push_decimal(&mut out, m);
    } else {
        push_decimal(&mut out, n as u64);
    }
    assert(out@ =~= int_text(n as int));
    out
}

/// An out-of-memory kill event. Every field is text: the pid and the time (in
/// milliseconds since the Unix epoch) are written in decimal.
pub struct OomEvent {
    pub pid: String,
    pub cmdline: String,
    pub hostname: String,
    pub kernel: String,
    pub time: String,
}

/// Builds the event for a kill of `pid`, whose command line was `cmdline`, on
/// host `hostname` running kernel `kernel`, at `time_millis`.
pub fn build_oom_event(pid: i32, cmdline: String, hostname: String, kernel: String, time_millis: u64) -> (e: OomEvent)
    ensures
        e.pid@ == int_text(pid as int),
        e.cmdline@ == cmdline@,
        e.hostname@ == hostname@,
        e.kernel@ == kernel@,
        e.time@ == decimal_digits(time_millis as nat),
{
    OomEvent {
        pid: int_to_text(pid as i64),
        cmdline,
        hostname,
        kernel,
        time: decimal_text(time_millis),
    }
}

impl OomEvent {
    /// The event's fields by name, in the order `pid`, `cmdline`, `hostname`,
    /// `kernel`, `time`.
    pub fn fields(&self) -> (r: Vec<(String, String)>)
        ensures
            r@.len() == 5,
            r@[0].0@ == "pid"@ && r@[0].1@ == self.pid@,
            r@[1].0@ == "cmdline"@ && r@[1].1@ == self.cmdline@,
            r@[2].0@ == "hostname"@ && r@[2].1@ == self.hostname@,
            r@[3].0@ == "kernel"@ && r@[3].1@ == self.kernel@,
            r@[4].0@ == "time"@ && r@[4].1@ == self.time@,
    {
        vec![
            ("pid".to_owned(), self.pid.clone()),
            ("cmdline".to_owned(), self.cmdline.clone()),
            ("hostname".to_owned(), self.hostname.clone()),
            ("kernel".to_owned(), self.kernel.clone()),
            ("time".to_owned(), self.time.clone()),
        ]
    }

    /// The short text posted to a chat webhook: command line, pid, hostname and
    /// kernel, one per line.
    pub fn webhook_text(&self) -> (r: String)
        ensures
            r@ == "- cmdline:"@ + self.cmdline@ + "\n- pid:"@ + self.pid@ + "\n- hostname:"@
                + self.hostname@ + "\n- kernel:"@ + self.kernel@,
    {
        let mut out = String::new();
        out.append("- cmdline:");
        out.append(self.cmdline.as_str());
        out.append("\n- pid:");
        out.append(self.pid.as_str());
        out.append("\n- hostname:");
        out.append(self.hostname.as_str());
        out.append("\n- kernel:");
        out.append(self.kernel.as_str());
        assert(out@ =~= "- cmdline:"@ + self.cmdline@ + "\n- pid:"@ + self.pid@ + "\n- hostname:"@
            + self.hostname@ + "\n- kernel:"@ + self.kernel@);
        out
    }
}

} // verus!
