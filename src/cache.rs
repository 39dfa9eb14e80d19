//! The process table cache: a bounded, least-recently-used map from process id
//! to the last command line seen for it.

use lru::LruCache;
use std::collections::hash_map::RandomState;
use crate::text::push_char;
use vstd::prelude::*;

verus! {

#[verifier::external_type_specification]
#[verifier::external_body]
#[verifier::reject_recursive_types(K)]
#[verifier::reject_recursive_types(V)]
#[verifier::reject_recursive_types(S)]
pub struct ExLruCache<K, V, S>(LruCache<K, V, S>);

/// The cache's store, hashed with std's `RandomState`.
pub type Lru = LruCache<i32, String, RandomState>;

/// An entry of the cache: a process id and its command line.
pub type Entry = (i32, Seq<char>);

/// What an `LruCache` holds, most recently used first.
pub uninterp spec fn lru_entries(c: Lru) -> Seq<Entry>;

/// The capacity that an `LruCache` was made with.
pub uninterp spec fn lru_capacity(c: Lru) -> nat;

/// `k` is the key of some entry of `e`.
pub open spec fn has_key(e: Seq<Entry>, k: i32) -> bool {
    exists|j: int| 0 <= j < e.len() && (#[trigger] e[j]).0 == k
}

/// No two entries of `e` share a key.
pub open spec fn unique_keys(e: Seq<Entry>) -> bool {
    forall|i: int, j: int| 0 <= i < e.len() && 0 <= j < e.len() && i != j ==> (#[trigger] e[i]).0 != (#[trigger] e[j]).0
}

/// The position of the entry with key `k`.
pub open spec fn key_index(e: Seq<Entry>, k: i32) -> int {
    choose|j: int| 0 <= j < e.len() && (#[trigger] e[j]).0 == k
}

/// The value stored under `k`, if any.
pub open spec fn value_of(e: Seq<Entry>, k: i32) -> Option<Seq<char>> {
    if has_key(e, k) {
        Some(e[key_index(e, k)].1)
    } else {
        None
    }
}

/// The entries after putting `(k, v)` into a cache of capacity `cap`: a cache
/// of capacity zero stays empty; otherwise the new entry comes first, an entry
/// already under `k` is dropped, and, when the cache is full, the least recently
/// used entry is evicted.
pub open spec fn put_entries(e: Seq<Entry>, cap: nat, k: i32, v: Seq<char>) -> Seq<Entry> {
    if cap == 0 {
        e
    } else if has_key(e, k) {
        seq![(k, v)] + e.remove(key_index(e, k))
    } else if e.len() < cap {
        seq![(k, v)] + e
    } else {
        seq![(k, v)] + e.drop_last()
    }
}

/// The entries after removing the one under `k`, if any.
pub open spec fn take_entries(e: Seq<Entry>, k: i32) -> Seq<Entry> {
    if has_key(e, k) {
        e.remove(key_index(e, k))
    } else {
        e
    }
}

/// Relies on `LruCache::with_hasher`: an empty cache that holds at most `cap` entries.
#[verifier::external_body]
fn lru_new(cap: usize) -> (c: Lru)
    requires
        cap > 0,
    ensures
        lru_entries(c) == Seq::<Entry>::empty(),
        lru_capacity(c) == cap,
{
    LruCache::with_hasher(std::num::NonZeroUsize::new(cap).unwrap(), RandomState::new())
}

/// Relies on `LruCache::put`: an entry under the same key has its value replaced
/// and moves to the front; a new key goes to the front, and when the cache is
/// full the entry at the back is evicted to make room.
#[verifier::external_body]
fn lru_put(c: &mut Lru, k: i32, v: String)
    ensures
        lru_entries(*final(c)) == put_entries(lru_entries(*old(c)), lru_capacity(*old(c)), k, v@),
        lru_capacity(*final(c)) == lru_capacity(*old(c)),
        unique_keys(lru_entries(*final(c))),
{
    c.put(k, v);
}

/// Relies on `LruCache::pop`: removes the entry under `k` and returns its value.
#[verifier::external_body]
fn lru_pop(c: &mut Lru, k: i32) -> (r: Option<String>)
    ensures
        lru_entries(*final(c)) == take_entries(lru_entries(*old(c)), k),
        lru_capacity(*final(c)) == lru_capacity(*old(c)),
        unique_keys(lru_entries(*final(c))),
        r matches Some(v) ==> value_of(lru_entries(*old(c)), k) == Some(v@),
        r is None ==> value_of(lru_entries(*old(c)), k) is None,
{
    c.pop(&k)
}

/// Relies on `LruCache::cap`: the capacity the cache was made with.
#[verifier::external_body]
fn lru_cap(c: &Lru) -> (r: usize)
    ensures
        r == lru_capacity(*c),
{
    c.cap().get()
}

/// Relies on `LruCache::len`: the number of entries.
#[verifier::external_body]
fn lru_len(c: &Lru) -> (r: usize)
    ensures
        r == lru_entries(*c).len(),
{
    c.len()
}


/// With keys unique, the entry found at position `j` is the one that `value_of` reports.
pub proof fn lemma_value_at(e: Seq<Entry>, j: int)
    requires
        unique_keys(e),
        0 <= j < e.len(),
    ensures
        has_key(e, e[j].0),
        key_index(e, e[j].0) == j,
        value_of(e, e[j].0) == Some(e[j].1),
{
    assert(has_key(e, e[j].0));
    let i = key_index(e, e[j].0);
    assert(e[i].0 == e[j].0);
}

/// Putting into a cache that respects its capacity keeps it within that capacity
/// and its keys unique; when a new key reaches a full cache, the least recently
/// used entry (the last) is the one evicted, and its key is gone afterwards.
pub proof fn lemma_put_bounded(e: Seq<Entry>, cap: nat, k: i32, v: Seq<char>)
    requires
        e.len() <= cap,
        unique_keys(e),
    ensures
        put_entries(e, cap, k, v).len() <= cap,
        unique_keys(put_entries(e, cap, k, v)),
        0 < cap ==> put_entries(e, cap, k, v)[0] == (k, v),
        0 < cap && !has_key(e, k) && e.len() == cap ==> {
            &&& put_entries(e, cap, k, v) == seq![(k, v)] + e.drop_last()
            &&& !has_key(put_entries(e, cap, k, v), e.last().0)
        },
{
    let r = put_entries(e, cap, k, v);
    if cap == 0 {
    } else if has_key(e, k) {
        let j = key_index(e, k);
        let rest = e.remove(j);
        assert forall|a: int, b: int| 0 <= a < r.len() && 0 <= b < r.len() && a != b implies (#[trigger] r[a]).0 != (#[trigger] r[b]).0 by {
            if a > 0 && b > 0 {
                let ia = if a - 1 < j { a - 1 } else { a };
                let ib = if b - 1 < j { b - 1 } else { b };
                assert(r[a] == e[ia]);
                assert(r[b] == e[ib]);
            } else if a == 0 {
                let ib = if b - 1 < j { b - 1 } else { b };
                assert(r[b] == e[ib]);
                assert(e[j].0 == k);
            } else {
                let ia = if a - 1 < j { a - 1 } else { a };
                assert(r[a] == e[ia]);
                assert(e[j].0 == k);
            }
        }
    } else {
        let rest = if e.len() < cap { e } else { e.drop_last() };
        assert forall|a: int, b: int| 0 <= a < r.len() && 0 <= b < r.len() && a != b implies (#[trigger] r[a]).0 != (#[trigger] r[b]).0 by {
            if a > 0 && b > 0 {
                assert(r[a] == e[a - 1]);
                assert(r[b] == e[b - 1]);
            } else if a == 0 {
                assert(r[b] == e[b - 1]);
            } else {
                assert(r[a] == e[a - 1]);
            }
        }
        if e.len() == cap {
            let last = e.last();
            assert(last == e[e.len() - 1]);
            if has_key(r, last.0) {
                let i = choose|i: int| 0 <= i < r.len() && (#[trigger] r[i]).0 == last.0;
                if i == 0 {
                    assert(e[e.len() - 1].0 != k);
                } else {
                    assert(r[i] == e[i - 1]);
                }
            }
        }
    }
}

/// Putting under a key that is already present replaces its value: no entry is
/// added, the key now maps to the new value alone, and every other key keeps
/// its value.
pub proof fn lemma_put_replaces(e: Seq<Entry>, cap: nat, k: i32, v: Seq<char>, other: i32)
    requires
        e.len() <= cap,
        unique_keys(e),
        has_key(e, k),
        other != k,
    ensures
        put_entries(e, cap, k, v).len() == e.len(),
        value_of(put_entries(e, cap, k, v), k) == Some(v),
        value_of(put_entries(e, cap, k, v), other) == value_of(e, other),
{
    let r = put_entries(e, cap, k, v);
    let j = key_index(e, k);
    assert(0 < e.len());
    lemma_put_bounded(e, cap, k, v);
    lemma_value_at(r, 0);
    if has_key(e, other) {
        let i = key_index(e, other);
        lemma_value_at(e, i);
        assert(i != j);
        let ri = if i < j { i + 1 } else { i };
        assert(r[ri] == e[i]);
        lemma_value_at(r, ri);
    } else if has_key(r, other) {
        let i = choose|i: int| 0 <= i < r.len() && (#[trigger] r[i]).0 == other;
        if i > 0 {
            let ei = if i - 1 < j { i - 1 } else { i };
            assert(r[i] == e[ei]);
        }
    }
}

/// Taking a pid out of a cache consumes it: afterwards the pid is absent, and
/// the entry it had, if any, is the one removed.
pub proof fn lemma_take_consumes(e: Seq<Entry>, k: i32)
    requires
        unique_keys(e),
    ensures
        !has_key(take_entries(e, k), k),
        has_key(e, k) ==> take_entries(e, k).len() + 1 == e.len(),
        !has_key(e, k) ==> take_entries(e, k) == e,
{
    if has_key(e, k) {
        let j = key_index(e, k);
        let r = e.remove(j);
        if has_key(r, k) {
            let i = choose|i: int| 0 <= i < r.len() && (#[trigger] r[i]).0 == k;
            let ei = if i < j { i } else { i + 1 };
            assert(r[i] == e[ei]);
        }
    }
}

/// Putting each of `items` in turn, first to last.
pub open spec fn put_all(e: Seq<Entry>, cap: nat, items: Seq<Entry>) -> Seq<Entry>
    decreases items.len(),
{
    if items.len() == 0 {
        e
    } else {
        put_entries(put_all(e, cap, items.drop_last()), cap, items.last().0, items.last().1)
    }
}

/// The cache of command lines by process id. Its capacity is fixed when it is
/// made; when full, the least recently used entry makes room for a new one.
/// A cache of capacity zero holds nothing.
pub struct ProcessTableCache {
    lru: Option<Lru>,
}

impl ProcessTableCache {
    /// The entries, most recently used first.
    pub closed spec fn entries(&self) -> Seq<Entry> {
        match self.lru {
            Some(l) => lru_entries(l),
            None => Seq::empty(),
        }
    }

    /// The greatest number of entries the cache holds.
    pub closed spec fn capacity(&self) -> nat {
        match self.lru {
            Some(l) => lru_capacity(l),
            None => 0,
        }
    }

    /// The entries fit the capacity, and no pid appears twice.
    pub open spec fn wf(&self) -> bool {
        &&& self.entries().len() <= self.capacity()
        &&& unique_keys(self.entries())
    }

    /// An empty cache that holds at most `capacity` entries.
    pub fn new(capacity: usize) -> (c: Self)
        ensures
            c.wf(),
            c.entries() == Seq::<Entry>::empty(),
            c.capacity() == capacity,
    {
        if capacity == 0 {
            ProcessTableCache { lru: None }
        } else {
            ProcessTableCache { lru: Some(lru_new(capacity)) }
        }
    }

    /// Records `cmdline` as the command line of `pid`, replacing what was there.
    pub fn put(&mut self, pid: i32, cmdline: String)
        requires
            old(self).wf(),
        ensures
            final(self).wf(),
            final(self).capacity() == old(self).capacity(),
            final(self).entries() == put_entries(old(self).entries(), old(self).capacity(), pid, cmdline@),
    {
        proof {
            lemma_put_bounded(self.entries(), self.capacity(), pid, cmdline@);
        }
        match &mut self.lru {
            Some(l) => lru_put(l, pid, cmdline),
            None => {},
        }
    }

    /// Looks `pid` up and, when it is there, removes it and returns its command line.
    pub fn take(&mut self, pid: i32) -> (r: Option<String>)
        requires
            old(self).wf(),
        ensures
            final(self).wf(),
            final(self).capacity() == old(self).capacity(),
            final(self).entries() == take_entries(old(self).entries(), pid),
            r is Some <==> has_key(old(self).entries(), pid),
            r matches Some(v) ==> value_of(old(self).entries(), pid) == Some(v@),
    {
        let r = match &mut self.lru {
            Some(l) => lru_pop(l, pid),
            None => None,
        };
        proof {
            let e = old(self).entries();
            if has_key(e, pid) {
                assert(e.remove(key_index(e, pid)).len() == e.len() - 1);
            }
        }
        r
    }

    /// The number of entries.
    pub fn len(&self) -> (r: usize)
        ensures
            r == self.entries().len(),
    {
        match &self.lru {
            Some(l) => lru_len(l),
            None => 0,
        }
    }

    /// The greatest number of entries the cache holds.
    pub fn cap(&self) -> (r: usize)
        ensures
            r == self.capacity(),
    {
        match &self.lru {
            Some(l) => lru_cap(l),
            None => 0,
        }
    }

    /// Puts the command line of each process of one refresh, in order.
    pub fn refresh(&mut self, records: Vec<ProcessRecord>)
        requires
            old(self).wf(),
        ensures
            final(self).wf(),
            final(self).capacity() == old(self).capacity(),
            final(self).entries() == put_all(old(self).entries(), old(self).capacity(), records_view(records@)),
    {
        let ghost start = self.entries();
        let ghost items = records_view(records@);
        let n = records.len();
        let mut i: usize = 0;
        while i < n
            invariant
                self.wf(),
                self.capacity() == old(self).capacity(),
                start == old(self).entries(),
                items == records_view(records@),
                n == records@.len(),
                i <= n,
                self.entries() == put_all(start, self.capacity(), items.take(i as int)),
            decreases n - i,
        {
            let r = &records[i];
            let text = record_text(r);
            assert(items.take(i + 1).drop_last() =~= items.take(i as int));
            assert(items.take(i + 1).last() == (r.pid, text@));
            self.put(r.pid, text);
            i = i + 1;
        }
        assert(items.take(n as int) =~= items);
    }
}

/// What one refresh learned of a live process: its id, and either its
/// command-line arguments or the text of the error met while reading them.
pub struct ProcessRecord {
    pub pid: i32,
    pub cmdline: Result<Vec<String>, String>,
}

/// The arguments joined by single spaces.
pub open spec fn join_spaces(parts: Seq<Seq<char>>) -> Seq<char>
    decreases parts.len(),
{
    if parts.len() == 0 {
        Seq::empty()
    } else if parts.len() == 1 {
        parts[0]
    } else {
        join_spaces(parts.drop_last()) + seq![' '] + parts.last()
    }
}

/// The texts of a list of strings.
pub open spec fn strings_view(v: Seq<String>) -> Seq<Seq<char>> {
    v.map_values(|a: String| a@)
}

/// The text kept for a process: its arguments joined by spaces, or, where they
/// could not be read, the error's own text.
pub open spec fn record_text_spec(r: ProcessRecord) -> Seq<char> {
    match r.cmdline {
        Ok(args) => join_spaces(strings_view(args@)),
        Err(e) => e@,
    }
}

/// The entries that a refresh puts, in order.
pub open spec fn records_view(rs: Seq<ProcessRecord>) -> Seq<Entry> {
    rs.map_values(|r: ProcessRecord| (r.pid, record_text_spec(r)))
}

/// The command-line arguments joined by single spaces.
pub fn cmdline_text(args: &Vec<String>) -> (r: String)
    ensures
        r@ == join_spaces(strings_view(args@)),
{
    let mut out = String::new();
    let n = args.len();
    let mut i: usize = 0;
    while i < n
        invariant
            n == args@.len(),
            i <= n,
            out@ == join_spaces(strings_view(args@.take(i as int))),
        decreases n - i,
    {
        let ghost prev = strings_view(args@.take(i as int));
        let ghost next = strings_view(args@.take(i + 1));
        assert(next.drop_last() =~= prev);
        if i > 0 {
            push_char(&mut out, ' ');
        }
        out.append(args[i].as_str());
        i = i + 1;
        assert(out@ =~= join_spaces(next));
    }
    assert(args@.take(n as int) =~= args@);
    out
}

/// The text kept for a process of a refresh.
pub fn record_text(r: &ProcessRecord) -> (t: String)
    ensures
        t@ == record_text_spec(*r),
{
    match &r.cmdline {
        Ok(args) => cmdline_text(args),
        Err(e) => e.clone(),
    }
}

} // verus!
