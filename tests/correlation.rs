use oom_notifier::cache::{cmdline_text, record_text, ProcessRecord, ProcessTableCache};
use oom_notifier::config::{
    broker_list, enabled_sinks, parse_pid_ceiling, syslog_sink_enabled, syslog_transport, trim_text,
    CeilingError, NotifierConfig, Sink, SyslogTransport,
};
use oom_notifier::event::{build_oom_event, decimal_text, int_to_text};
use oom_notifier::text::{chars_of, contains_chars, decimal_value, first_numeric_token, is_string_numeric};
use oom_notifier::watcher::{
    candidate_pid_of, extract_pid, oom_pid_in_lowered, Correlation, KernelLogWatcher, LogEntry,
};

const SECOND: u64 = 1_000_000_000;

fn entry(message: &str, ns: Option<u64>) -> LogEntry {
    LogEntry { message: message.to_string(), since_boot_ns: ns }
}

fn empty_config() -> NotifierConfig {
    NotifierConfig {
        syslog_proto: String::new(),
        syslog_server: String::new(),
        search_server: String::new(),
        search_index: String::new(),
        broker_addresses: String::new(),
        broker_topic: String::new(),
        webhook_url: String::new(),
        webhook_channel: String::new(),
    }
}

#[test]
fn cache_evicts_least_recently_used_beyond_capacity() {
    let mut c = ProcessTableCache::new(2);
    c.put(1, "one".to_string());
    c.put(2, "two".to_string());
    c.put(3, "three".to_string());
    assert_eq!(c.len(), 2);
    assert_eq!(c.cap(), 2);
    assert_eq!(c.take(1), None);
    assert_eq!(c.take(2), Some("two".to_string()));
    assert_eq!(c.take(3), Some("three".to_string()));
}

#[test]
fn cache_recently_put_entry_survives_eviction() {
    let mut c = ProcessTableCache::new(2);
    c.put(1, "one".to_string());
    c.put(2, "two".to_string());
    c.put(1, "one again".to_string());
    c.put(3, "three".to_string());
    assert_eq!(c.take(2), None);
    assert_eq!(c.take(1), Some("one again".to_string()));
}

#[test]
fn put_replaces_existing_value() {
    let mut c = ProcessTableCache::new(8);
    c.put(5, "old".to_string());
    c.put(5, "new".to_string());
    assert_eq!(c.len(), 1);
    assert_eq!(c.take(5), Some("new".to_string()));
    assert_eq!(c.len(), 0);
}

#[test]
fn refresh_keeps_error_text_and_joined_arguments() {
    let mut c = ProcessTableCache::new(8);
    c.refresh(vec![
        ProcessRecord { pid: 10, cmdline: Ok(vec!["nginx:".to_string(), "worker".to_string()]) },
        ProcessRecord { pid: 11, cmdline: Err("permission denied".to_string()) },
        ProcessRecord { pid: 10, cmdline: Ok(vec!["nginx:".to_string(), "master".to_string()]) },
    ]);
    assert_eq!(c.len(), 2);
    assert_eq!(c.take(10), Some("nginx: master".to_string()));
    assert_eq!(c.take(11), Some("permission denied".to_string()));
}

#[test]
fn cmdline_text_joins_with_single_spaces() {
    assert_eq!(cmdline_text(&vec![]), "");
    assert_eq!(cmdline_text(&vec!["a".to_string()]), "a");
    assert_eq!(cmdline_text(&vec!["/bin/sh".to_string(), "-c".to_string(), "x y".to_string()]), "/bin/sh -c x y");
    let r = ProcessRecord { pid: 1, cmdline: Err("gone".to_string()) };
    assert_eq!(record_text(&r), "gone");
}

#[test]
fn oom_entry_yields_one_event_and_consumes_cache_entry() {
    let mut c = ProcessTableCache::new(16);
    c.put(200, "nginx: worker".to_string());
    let mut w = KernelLogWatcher::new(100 * SECOND);
    let entries = vec![entry(
        "Out of memory: Killed process 200 (nginx) total-vm:12345kB",
        Some(120 * SECOND + SECOND / 2),
    )];
    let out = w.poll(&mut c, &entries);
    assert_eq!(out.len(), 1);
    match &out[0] {
        Correlation::Hit { pid, cmdline } => {
            assert_eq!(*pid, 200);
            assert_eq!(cmdline, "nginx: worker");
            let e = build_oom_event(*pid, cmdline.clone(), "host".to_string(), "Linux 6".to_string(), 42);
            assert_eq!(e.pid, "200");
            assert_eq!(e.cmdline, "nginx: worker");
            assert_eq!(e.time, "42");
        }
        Correlation::Miss { .. } => panic!("expected a hit"),
    }
    assert_eq!(w.watermark, 120 * SECOND + SECOND / 2);
    assert_eq!(c.take(200), None);
    assert_eq!(c.len(), 0);
}

#[test]
fn replayed_entry_produces_no_event() {
    let mut c = ProcessTableCache::new(16);
    c.put(200, "nginx: worker".to_string());
    let mut w = KernelLogWatcher::new(100 * SECOND);
    let entries = vec![entry(
        "Out of memory: Killed process 200 (nginx) total-vm:12345kB",
        Some(120 * SECOND + SECOND / 2),
    )];
    assert_eq!(w.poll(&mut c, &entries).len(), 1);
    c.put(200, "nginx: worker".to_string());
    let again = w.poll(&mut c, &entries);
    assert!(again.is_empty());
    assert_eq!(w.watermark, 120 * SECOND + SECOND / 2);
    assert_eq!(c.len(), 1);
}

#[test]
fn repolling_without_new_entries_dispatches_nothing() {
    let mut c = ProcessTableCache::new(16);
    c.put(7, "a".to_string());
    c.put(8, "b".to_string());
    let mut w = KernelLogWatcher::new(0);
    let entries = vec![
        entry("Out of memory: Killed process 7 (a)", Some(5)),
        entry("Out of memory: Killed process 8 (b)", Some(3)),
        entry("Out of memory: Killed process 8 (b)", None),
    ];
    let first = w.poll(&mut c, &entries);
    assert_eq!(first.len(), 1);
    assert_eq!(w.watermark, 5);
    let second = w.poll(&mut c, &entries);
    assert!(second.is_empty());
    assert_eq!(w.watermark, 5);
    assert_eq!(c.len(), 1);
}

#[test]
fn missing_cache_entry_reports_one_miss() {
    let mut c = ProcessTableCache::new(16);
    c.put(300, "other".to_string());
    let mut w = KernelLogWatcher::new(0);
    let entries = vec![entry("Out of memory: Killed process 200 (nginx)", Some(SECOND))];
    let out = w.poll(&mut c, &entries);
    assert_eq!(out.len(), 1);
    assert!(matches!(out[0], Correlation::Miss { pid: 200 }));
    assert_eq!(c.len(), 1);
    assert_eq!(w.watermark, SECOND);
}

#[test]
fn non_matching_entries_advance_watermark_only() {
    let mut c = ProcessTableCache::new(16);
    c.put(4, "x".to_string());
    let mut w = KernelLogWatcher::new(10);
    let entries = vec![
        entry("eth0: link up 4", Some(20)),
        entry("Out of memory: no pid here", Some(30)),
        entry("Out of memory: Killed process 4", Some(25)),
    ];
    let out = w.poll(&mut c, &entries);
    assert!(out.is_empty());
    assert_eq!(w.watermark, 30);
    assert_eq!(c.len(), 1);
}

#[test]
fn first_numeric_token_wins() {
    assert_eq!(oom_pid_in_lowered("out of memory: process 4821 uid 0"), Some(4821));
    assert_eq!(extract_pid(&chars_of("process 4821 uid 0")), Some(4821));
    assert_eq!(extract_pid(&chars_of("a1 22b\t333 4")), Some(333));
    assert_eq!(extract_pid(&chars_of("no digits at all")), None);
    assert_eq!(extract_pid(&chars_of("99999999999 7")), None);
    assert_eq!(first_numeric_token(&chars_of("x 12 3")), Some((2, 4)));
    assert_eq!(first_numeric_token(&chars_of("")), None);
}

#[test]
fn signature_matches_without_regard_to_case() {
    assert_eq!(candidate_pid_of("OUT OF MEMORY: Killed process 77 (x)"), Some(77));
    assert_eq!(candidate_pid_of("Out of memory Killed process 77"), None);
    assert_eq!(oom_pid_in_lowered("OUT OF MEMORY: Killed process 77"), None);
    assert!(contains_chars(&chars_of("abcabd"), &chars_of("abd")));
    assert!(!contains_chars(&chars_of("ab"), &chars_of("abc")));
}

#[test]
fn decimal_values() {
    let s = chars_of("12345");
    assert_eq!(decimal_value(&s, 0, 5, 100000), Some(12345));
    assert_eq!(decimal_value(&s, 0, 5, 12344), None);
    assert_eq!(decimal_value(&s, 1, 3, 100), Some(23));
    assert_eq!(decimal_value(&s, 2, 2, 100), None);
    assert_eq!(decimal_value(&chars_of("1x"), 0, 2, 100), None);
}

#[test]
fn unix_syslog_fires_without_server_and_broker_needs_addresses() {
    let mut cfg = empty_config();
    cfg.syslog_proto = "unix".to_string();
    cfg.broker_topic = "events".to_string();
    let sinks = enabled_sinks(&cfg);
    assert_eq!(sinks.len(), 1);
    match &sinks[0] {
        Sink::Syslog { proto, server } => {
            assert_eq!(proto, "unix");
            assert_eq!(server, "");
        }
        _ => panic!("expected the syslog sink"),
    }
    assert!(syslog_sink_enabled("unix", ""));
    assert!(!syslog_sink_enabled("tcp", ""));
    assert!(syslog_sink_enabled("tcp", "localhost:514"));
    assert!(!syslog_sink_enabled("", "localhost:514"));
}

#[test]
fn all_sinks_fire_in_order_when_configured() {
    let cfg = NotifierConfig {
        syslog_proto: "udp".to_string(),
        syslog_server: "h:514".to_string(),
        search_server: "http://es:9200".to_string(),
        search_index: "oom".to_string(),
        broker_addresses: "k1:9092,k2:9092".to_string(),
        broker_topic: "oom".to_string(),
        webhook_url: "https://hook".to_string(),
        webhook_channel: "#ops".to_string(),
    };
    let sinks = enabled_sinks(&cfg);
    assert_eq!(sinks.len(), 4);
    assert!(matches!(sinks[0], Sink::SearchIndex { .. }));
    assert!(matches!(sinks[1], Sink::Webhook { .. }));
    assert!(matches!(sinks[2], Sink::Broker { .. }));
    assert!(matches!(sinks[3], Sink::Syslog { .. }));
    assert!(enabled_sinks(&empty_config()).is_empty());
}

#[test]
fn syslog_transports() {
    assert_eq!(syslog_transport("unix"), Some(SyslogTransport::Unix));
    assert_eq!(syslog_transport("tcp"), Some(SyslogTransport::Tcp));
    assert_eq!(syslog_transport("udp"), Some(SyslogTransport::Udp));
    assert_eq!(syslog_transport("UDP"), None);
    assert_eq!(syslog_transport(""), None);
}

#[test]
fn broker_list_splits_on_commas() {
    assert_eq!(broker_list("k1:9092,k2:9092"), vec!["k1:9092".to_string(), "k2:9092".to_string()]);
    assert_eq!(broker_list("k1"), vec!["k1".to_string()]);
    assert_eq!(broker_list(""), vec!["".to_string()]);
    assert_eq!(broker_list("a,"), vec!["a".to_string(), "".to_string()]);
}

#[test]
fn pid_ceiling_sizes_the_cache() {
    assert_eq!(parse_pid_ceiling("4194304\n"), Ok(4194304));
    let c = ProcessTableCache::new(parse_pid_ceiling("4194304\n").unwrap());
    assert_eq!(c.cap(), 4194304);
    assert_eq!(c.len(), 0);
}

#[test]
fn pid_ceiling_rejects_bad_text() {
    assert_eq!(parse_pid_ceiling("not a number\n"), Err(CeilingError::NotANumber));
    assert_eq!(parse_pid_ceiling(""), Err(CeilingError::NotANumber));
    assert_eq!(parse_pid_ceiling("-5"), Err(CeilingError::NotANumber));
    assert_eq!(parse_pid_ceiling("  +32768 "), Ok(32768));
}

#[test]
fn trimming_and_decimal_text() {
    assert_eq!(trim_text("  host.example\n"), "host.example");
    assert_eq!(trim_text("\t \n"), "");
    assert_eq!(decimal_text(0), "0");
    assert_eq!(decimal_text(1697600000123), "1697600000123");
    assert_eq!(int_to_text(-42), "-42");
    assert_eq!(int_to_text(i64::MIN), "-9223372036854775808");
}

#[test]
fn event_fields_and_webhook_text() {
    let e = build_oom_event(9865, "oom_trigger --big".to_string(), "web1".to_string(), "Linux version 6.1".to_string(), 1000);
    let f = e.fields();
    let names: Vec<&str> = f.iter().map(|p| p.0.as_str()).collect();
    assert_eq!(names, vec!["pid", "cmdline", "hostname", "kernel", "time"]);
    assert_eq!(f[0].1, "9865");
    assert_eq!(f[4].1, "1000");
    assert_eq!(
        e.webhook_text(),
        "- cmdline:oom_trigger --big\n- pid:9865\n- hostname:web1\n- kernel:Linux version 6.1"
    );
}

#[test]
fn numeric_strings() {
    assert!(is_string_numeric("4821".to_string()));
    assert!(is_string_numeric("".to_string()));
    assert!(is_string_numeric("\u{0663}\u{00BD}".to_string()));
    assert!(!is_string_numeric("12a".to_string()));
    assert!(!is_string_numeric("-1".to_string()));
}

#[test]
fn tokens_split_on_unicode_whitespace() {
    assert_eq!(extract_pid(&chars_of("killed\u{A0}314\nx")), Some(314));
    assert_eq!(extract_pid(&chars_of("\t\t55\t")), Some(55));
    assert_eq!(first_numeric_token(&chars_of("a\u{3000}9")), Some((2, 3)));
}

#[test]
fn first_numeric_token_that_is_not_ascii_names_no_pid() {
    assert_eq!(first_numeric_token(&chars_of("pid \u{0663} 12")), Some((4, 5)));
    assert_eq!(extract_pid(&chars_of("pid \u{0663} 12")), None);
}

#[test]
fn cache_of_one_keeps_only_the_latest() {
    let mut c = ProcessTableCache::new(1);
    c.put(1, "a".to_string());
    c.put(2, "b".to_string());
    assert_eq!(c.len(), 1);
    assert_eq!(c.take(1), None);
    assert_eq!(c.take(2), Some("b".to_string()));
    assert_eq!(c.take(2), None);
}

#[test]
fn zero_pid_ceiling_gives_a_cache_that_holds_nothing() {
    assert_eq!(parse_pid_ceiling("0\n"), Ok(0));
    let mut c = ProcessTableCache::new(parse_pid_ceiling("0\n").unwrap());
    assert_eq!(c.cap(), 0);
    c.put(1, "a".to_string());
    c.refresh(vec![ProcessRecord { pid: 2, cmdline: Err("gone".to_string()) }]);
    assert_eq!(c.len(), 0);
    assert_eq!(c.take(1), None);
    let mut w = KernelLogWatcher::new(0);
    let out = w.poll(&mut c, &vec![entry("Out of memory: Killed process 1 (a)", Some(9))]);
    assert_eq!(out.len(), 1);
    assert!(matches!(out[0], Correlation::Miss { pid: 1 }));
    assert_eq!(w.watermark, 9);
}
