//! Startup configuration: the process-id ceiling that sizes the cache, and which
//! notification sinks are enabled.

use crate::text::{all_digits, chars_of, decimal_value, digits_value, is_whitespace_char, push_char, whitespace};
use vstd::prelude::*;

verus! {

/// `s` without its leading whitespace.
pub open spec fn trim_start(s: Seq<char>) -> Seq<char>
    decreases s.len(),
{
    if s.len() > 0 && whitespace(s[0]) {
        trim_start(s.drop_first())
    } else {
        s
    }
}

/// `s` without its trailing whitespace.
pub open spec fn trim_end(s: Seq<char>) -> Seq<char>
    decreases s.len(),
{
    if s.len() > 0 && whitespace(s.last()) {
        trim_end(s.drop_last())
    } else {
        s
    }
}

/// `s` without leading or trailing whitespace.
pub open spec fn trimmed(s: Seq<char>) -> Seq<char> {
    trim_end(trim_start(s))
}

/// Where the text of `s` starts and ends once surrounding whitespace is dropped.
fn trim_bounds(s: &Vec<char>) -> (r: (usize, usize))
    ensures
        r.0 <= r.1 <= s@.len(),
        s@.subrange(r.0 as int, r.1 as int) == trimmed(s@),
{
    let n = s.len();
    let mut lo: usize = 0;
    assert(s@.subrange(0, n as int) =~= s@);
    while lo < n && is_whitespace_char(s[lo])
        invariant
            n == s@.len(),
            lo <= n,
            trim_start(s@) == trim_start(s@.subrange(lo as int, n as int)),
        decreases n - lo,
    {
        assert(s@.subrange(lo as int, n as int).drop_first() =~= s@.subrange(lo + 1, n as int));
        lo = lo + 1;
    }
    assert(trim_start(s@) == s@.subrange(lo as int, n as int));
    let mut hi: usize = n;
    while hi > lo && is_whitespace_char(s[hi - 1])
        invariant
            n == s@.len(),
            lo <= hi <= n,
            trimmed(s@) == trim_end(s@.subrange(lo as int, hi as int)),
        decreases hi,
    {
        assert(s@.subrange(lo as int, hi as int).drop_last() =~= s@.subrange(lo as int, hi - 1));
        hi = hi - 1;
    }
    (lo, hi)
}

/// `s` without leading or trailing whitespace.
pub fn trim_text(s: &str) -> (r: String)
    ensures
        r@ == trimmed(s@),
{
    let cs = chars_of(s);
    let (lo, hi) = trim_bounds(&cs);
    let mut out = String::new();
    let mut i: usize = lo;
    while i < hi
        invariant
            lo <= i <= hi <= cs@.len(),
            out@ == cs@.subrange(lo as int, i as int),
        decreases hi - i,
    {
        push_char(&mut out, cs[i]);
        i = i + 1;
        assert(out@ =~= cs@.subrange(lo as int, i as int));
    }
    out
}

/// Why the process-id ceiling cannot be read.
#[derive(Debug, Clone, Copy, PartialEq, Eq, Structural)]
pub enum CeilingError {
    /// The text is not a decimal number that fits a `usize`.
    NotANumber,
}

/// The digits of a ceiling: the trimmed text without one leading `+`.
pub open spec fn ceiling_digits(content: Seq<char>) -> Seq<char> {
    let t = trimmed(content);
    if t.len() > 0 && t[0] == '+' {
        t.drop_first()
    } else {
        t
    }
}

/// The text is a decimal number that fits a `usize`, once surrounding whitespace
/// and one leading `+` are dropped.
pub open spec fn ceiling_is_number(content: Seq<char>) -> bool {
    let d = ceiling_digits(content);
    d.len() > 0 && all_digits(d) && digits_value(d) <= usize::MAX
}

/// Reads the system's process-id ceiling from the text of the file that holds
/// it: the capacity that the process table cache is made with.
pub fn parse_pid_ceiling(content: &str) -> (r: Result<usize, CeilingError>)
    ensures
        r == if !ceiling_is_number(content@) {
            Err::<usize, CeilingError>(CeilingError::NotANumber)
        } else {
            Ok(digits_value(ceiling_digits(content@)) as usize)
        },
{
    let cs = chars_of(content);
    let (lo, hi) = trim_bounds(&cs);
    let from = if lo < hi && cs[lo] == '+' { lo + 1 } else { lo };
    proof {
        let t = cs@.subrange(lo as int, hi as int);
        assert(t.len() > 0 ==> t[0] == cs@[lo as int]);
        if lo < hi && cs@[lo as int] == '+' {
            assert(t.drop_first() =~= cs@.subrange(from as int, hi as int));
        }
        assert(ceiling_digits(content@) == cs@.subrange(from as int, hi as int));
    }
    match decimal_value(&cs, from, hi, usize::MAX as u64) {
        None => Err(CeilingError::NotANumber),
        Some(v) => Ok(v as usize),
    }
}

/// The pieces of `s` between the occurrences of `sep`, in order; there is one
/// more piece than there are separators.
pub open spec fn split_on(s: Seq<char>, sep: char) -> Seq<Seq<char>>
    decreases s.len(),
{
    if s.len() == 0 {
        seq![Seq::empty()]
    } else {
        let p = split_on(s.drop_last(), sep);
        if s.last() == sep {
            p.push(Seq::empty())
        } else {
            p.update(p.len() - 1, p.last().push(s.last()))
        }
    }
}

/// Splitting always yields at least one piece.
pub proof fn lemma_split_nonempty(s: Seq<char>, sep: char)
    ensures
        split_on(s, sep).len() >= 1,
    decreases s.len(),
{
    if s.len() > 0 {
        lemma_split_nonempty(s.drop_last(), sep);
    }
}

/// The broker addresses of a comma-separated list, in order.
pub fn broker_list(brokers: &str) -> (r: Vec<String>)
    ensures
        r@.len() == split_on(brokers@, ',').len(),
        forall|i: int| 0 <= i < r@.len() ==> (#[trigger] r@[i])@ == split_on(brokers@, ',')[i],
{
    let cs = chars_of(brokers);
    let n = cs.len();
    let mut done: Vec<String> = Vec::new();
    let mut cur = String::new();
    let mut i: usize = 0;
    while i < n
        invariant
            n == cs@.len(),
            cs@ == brokers@,
            i <= n,
            done@.len() + 1 == split_on(cs@.take(i as int), ',').len(),
            forall|k: int| 0 <= k < done@.len() ==> (#[trigger] done@[k])@ == split_on(cs@.take(i as int), ',')[k],
            cur@ == split_on(cs@.take(i as int), ',').last(),
        decreases n - i,
    {
        let ghost prev = split_on(cs@.take(i as int), ',');
        assert(cs@.take(i + 1).drop_last() =~= cs@.take(i as int));
        assert(cs@.take(i + 1).last() == cs@[i as int]);
        proof {
            lemma_split_nonempty(cs@.take(i as int), ',');
        }
        let c = cs[i];
        if c == ',' {
            let piece = cur;
            done.push(piece);
            cur = String::new();
        } else {
            push_char(&mut cur, c);
        }
        i = i + 1;
        let ghost next = split_on(cs@.take(i as int), ',');
        assert forall|k: int| 0 <= k < done@.len() implies (#[trigger] done@[k])@ == next[k] by {
            if k < prev.len() - 1 {
                assert(next[k] == prev[k]);
            }
        }
    }
    assert(cs@.take(n as int) =~= cs@);
    let ghost before = done@;
    done.push(cur);
    proof {
        let p = split_on(cs@, ',');
        assert forall|k: int| 0 <= k < done@.len() implies (#[trigger] done@[k])@ == p[k] by {
            if k < done@.len() - 1 {
                assert(done@[k] == before[k]);
            }
        }
    }
    done
}


/// The settings of the notification sinks; an empty string is a setting left out.
pub struct NotifierConfig {
    /// `unix`, `tcp` or `udp`.
    pub syslog_proto: String,
    /// `host:port` of a syslog server; not needed over a unix socket.
    pub syslog_server: String,
    /// URL of the search-index endpoint.
    pub search_server: String,
    /// Name of the index that events go to.
    pub search_index: String,
    /// Comma-separated `host:port` list of brokers.
    pub broker_addresses: String,
    /// Topic that events are published to.
    pub broker_topic: String,
    /// URL of the chat webhook.
    pub webhook_url: String,
    /// Channel that the webhook posts to.
    pub webhook_channel: String,
}

/// The kinds of notification sink.
#[derive(Debug, Clone, Copy, PartialEq, Eq, Structural)]
pub enum SinkKind {
    Syslog,
    SearchIndex,
    Broker,
    Webhook,
}

/// A sink that an event is sent to, with its two settings.
pub enum Sink {
    Syslog { proto: String, server: String },
    SearchIndex { server: String, index: String },
    Broker { brokers: String, topic: String },
    Webhook { url: String, channel: String },
}

/// A sink as its kind and the text of its two settings, in the order declared.
pub type SinkView = (SinkKind, Seq<char>, Seq<char>);

impl Sink {
    /// The sink's kind and its two settings.
    pub open spec fn view(&self) -> SinkView {
        match self {
            Sink::Syslog { proto, server } => (SinkKind::Syslog, proto@, server@),
            Sink::SearchIndex { server, index } => (SinkKind::SearchIndex, server@, index@),
            Sink::Broker { brokers, topic } => (SinkKind::Broker, brokers@, topic@),
            Sink::Webhook { url, channel } => (SinkKind::Webhook, url@, channel@),
        }
    }
}

/// The sinks as their views.
pub open spec fn sinks_view(s: Seq<Sink>) -> Seq<SinkView> {
    s.map_values(|k: Sink| k.view())
}

/// The protocol setting that needs no server address.
pub open spec fn unix_text() -> Seq<char> {
    seq!['u', 'n', 'i', 'x']
}

/// The syslog sink fires over a unix socket, or when both protocol and server are set.
pub open spec fn syslog_enabled(proto: Seq<char>, server: Seq<char>) -> bool {
    proto == unix_text() || (proto.len() > 0 && server.len() > 0)
}

/// A sink with two required settings fires when both are set.
pub open spec fn both_set(a: Seq<char>, b: Seq<char>) -> bool {
    a.len() > 0 && b.len() > 0
}

pub open spec fn sink_if(on: bool, s: SinkView) -> Seq<SinkView> {
    if on {
        seq![s]
    } else {
        Seq::empty()
    }
}

/// The sinks that fire, in the order in which events are sent to them: search
/// index, webhook, broker, syslog.
pub open spec fn enabled_sinks_spec(c: NotifierConfig) -> Seq<SinkView> {
    sink_if(both_set(c.search_server@, c.search_index@), (SinkKind::SearchIndex, c.search_server@, c.search_index@))
        + sink_if(both_set(c.webhook_url@, c.webhook_channel@), (SinkKind::Webhook, c.webhook_url@, c.webhook_channel@))
        + sink_if(both_set(c.broker_addresses@, c.broker_topic@), (SinkKind::Broker, c.broker_addresses@, c.broker_topic@))
        + sink_if(syslog_enabled(c.syslog_proto@, c.syslog_server@), (SinkKind::Syslog, c.syslog_proto@, c.syslog_server@))
}

fn same_chars(a: &Vec<char>, b: &Vec<char>) -> (r: bool)
    ensures
        r == (a@ == b@),
{
    if a.len() != b.len() {
        return false;
    }
    let mut i: usize = 0;
    while i < a.len()
        invariant
            a@.len() == b@.len(),
            i <= a@.len(),
            forall|k: int| 0 <= k < i ==> a@[k] == b@[k],
        decreases a@.len() - i,
    {
        if a[i] != b[i] {
            return false;
        }
        i = i + 1;
    }
    assert(a@ =~= b@);
    true
}

/// Whether the syslog settings make the syslog sink fire.
pub fn syslog_sink_enabled(proto: &str, server: &str) -> (r: bool)
    ensures
        r == syslog_enabled(proto@, server@),
{
    let unix = vec!['u', 'n', 'i', 'x'];
    assert(unix@ =~= unix_text());
    same_chars(&chars_of(proto), &unix) || (!proto.is_empty() && !server.is_empty())
}

/// The transports that syslog records go over.
#[derive(Debug, Clone, Copy, PartialEq, Eq, Structural)]
pub enum SyslogTransport {
    Unix,
    Tcp,
    Udp,
}

/// The transport that a protocol setting names.
pub open spec fn transport_of(proto: Seq<char>) -> Option<SyslogTransport> {
    if proto == unix_text() {
        Some(SyslogTransport::Unix)
    } else if proto == seq!['t', 'c', 'p'] {
        Some(SyslogTransport::Tcp)
    } else if proto == seq!['u', 'd', 'p'] {
        Some(SyslogTransport::Udp)
    } else {
        None
    }
}

/// The transport that a protocol setting names: `unix`, `tcp` or `udp`, and no
/// other.
pub fn syslog_transport(proto: &str) -> (r: Option<SyslogTransport>)
    ensures
        r == transport_of(proto@),
{
    let p = chars_of(proto);
    let unix = vec!['u', 'n', 'i', 'x'];
    let tcp = vec!['t', 'c', 'p'];
    let udp = vec!['u', 'd', 'p'];
    assert(unix@ =~= unix_text());
    assert(tcp@ =~= seq!['t', 'c', 'p']);
    assert(udp@ =~= seq!['u', 'd', 'p']);
    if same_chars(&p, &unix) {
        Some(SyslogTransport::Unix)
    } else if same_chars(&p, &tcp) {
        Some(SyslogTransport::Tcp)
    } else if same_chars(&p, &udp) {
        Some(SyslogTransport::Udp)
    } else {
        None
    }
}

/// The sinks that an event is sent to: each one whose required settings are all
/// set, in a fixed order.
pub fn enabled_sinks(c: &NotifierConfig) -> (r: Vec<Sink>)
    ensures
        sinks_view(r@) == enabled_sinks_spec(*c),
{
    let mut r: Vec<Sink> = Vec::new();
    if !c.search_server.as_str().is_empty() && !c.search_index.as_str().is_empty() {
        r.push(Sink::SearchIndex { server: c.search_server.clone(), index: c.search_index.clone() });
    }
    let ghost r1 = sinks_view(r@);
    if !c.webhook_url.as_str().is_empty() && !c.webhook_channel.as_str().is_empty() {
        r.push(Sink::Webhook { url: c.webhook_url.clone(), channel: c.webhook_channel.clone() });
    }
    assert(sinks_view(r@) =~= r1 + sink_if(both_set(c.webhook_url@, c.webhook_channel@), (SinkKind::Webhook, c.webhook_url@, c.webhook_channel@)));
    let ghost r2 = sinks_view(r@);
    if !c.broker_addresses.as_str().is_empty() && !c.broker_topic.as_str().is_empty() {
        r.push(Sink::Broker { brokers: c.broker_addresses.clone(), topic: c.broker_topic.clone() });
    }
    assert(sinks_view(r@) =~= r2 + sink_if(both_set(c.broker_addresses@, c.broker_topic@), (SinkKind::Broker, c.broker_addresses@, c.broker_topic@)));
    let ghost r3 = sinks_view(r@);
    if syslog_sink_enabled(c.syslog_proto.as_str(), c.syslog_server.as_str()) {
        r.push(Sink::Syslog { proto: c.syslog_proto.clone(), server: c.syslog_server.clone() });
    }
    assert(sinks_view(r@) =~= r3 + sink_if(syslog_enabled(c.syslog_proto@, c.syslog_server@), (SinkKind::Syslog, c.syslog_proto@, c.syslog_server@)));
    assert(r1 =~= sink_if(both_set(c.search_server@, c.search_index@), (SinkKind::SearchIndex, c.search_server@, c.search_index@)));
    r
}

} // verus!
