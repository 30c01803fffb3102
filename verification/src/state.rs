//! What the proxy remembers between client connections.

use vstd::prelude::*;
use crate::addr::{CacheAddr, contains_addr};

verus! {

/// The proxy's shared state: how to reach the sentinel, which cache was the
/// master when last looked up, and every cache discovered so far.
#[derive(Hash, Debug, Clone)]
pub struct Inner {
    /// The sentinel's name for the cache.
    pub master: String,
    /// Where the sentinel listens.
    pub sentinel_addr: CacheAddr,
    /// How long to wait for the sentinel, in milliseconds.
    pub sentinel_timeout: u64,
    /// The master found by the latest lookup.
    pub last_known_master: CacheAddr,
    /// Every cache seen so far, masters and replicas, in the order found.
    pub discovered_masters: Vec<CacheAddr>,
    /// The password for the caches; empty when there is none.
    pub password: String,
}

/// The content of an `Inner`.
pub struct InnerView {
    pub master: Seq<char>,
    pub sentinel_addr: CacheAddr,
    pub sentinel_timeout: u64,
    pub last_known_master: CacheAddr,
    pub discovered_masters: Seq<CacheAddr>,
    pub password: Seq<char>,
}

impl View for Inner {
    type V = InnerView;

    open spec fn view(&self) -> InnerView {
        InnerView {
            master: self.master@,
            sentinel_addr: self.sentinel_addr,
            sentinel_timeout: self.sentinel_timeout,
            last_known_master: self.last_known_master,
            discovered_masters: self.discovered_masters@,
            password: self.password@,
        }
    }
}

/// `list` with `addr` added at its end, unless it already holds it.
pub open spec fn with_cache(list: Seq<CacheAddr>, addr: CacheAddr) -> Seq<CacheAddr> {
    if list.contains(addr) {
        list
    } else {
        list.push(addr)
    }
}

impl InnerView {
    /// The last known master is one of the discovered caches.
    pub open spec fn well_formed(self) -> bool {
        self.discovered_masters.contains(self.last_known_master)
    }

    /// The state after `master` was found to be the current master: it is the
    /// last known master, and a discovered cache.
    pub open spec fn adopt_master(self, master: CacheAddr) -> InnerView {
        InnerView {
            last_known_master: master,
            discovered_masters: with_cache(self.discovered_masters, master),
            ..self
        }
    }

    /// The state after `cache` was found connected to the master: it is a
    /// discovered cache.
    pub open spec fn add_slave(self, cache: CacheAddr) -> InnerView {
        InnerView { discovered_masters: with_cache(self.discovered_masters, cache), ..self }
    }
}

/// The caches discovered at start: the master, then its replica when it
/// named one.
pub open spec fn initial_caches(master: CacheAddr, slave: Option<CacheAddr>) -> Seq<CacheAddr> {
    match slave {
        Some(s) => seq![master, s],
        None => seq![master],
    }
}

impl Inner {
    /// The state at start, once the sentinel named `current_master` and that
    /// master named `slave` as its replica, if it did.
    pub fn new(
        master: String,
        sentinel_addr: CacheAddr,
        sentinel_timeout: u64,
        current_master: CacheAddr,
        slave: Option<CacheAddr>,
        password: String,
    ) -> (inner: Inner)
        ensures
            inner@ == (InnerView {
                master: master@,
                sentinel_addr,
                sentinel_timeout,
                last_known_master: current_master,
                discovered_masters: initial_caches(current_master, slave),
                password: password@,
            }),
            inner@.well_formed(),
    {
        let mut discovered_masters: Vec<CacheAddr> = Vec::new();
        discovered_masters.push(current_master);
        match slave {
            Some(s) => discovered_masters.push(s),
            None => {},
        }
        let inner = Inner {
            master,
            sentinel_addr,
            sentinel_timeout,
            last_known_master: current_master,
            discovered_masters,
            password,
        };
        assert(inner@.discovered_masters =~= initial_caches(current_master, slave));
        assert(inner@.discovered_masters[0] == current_master);
        inner
    }

    /// Records that `current` is the master now: it becomes the last known
    /// master and is added to the discovered caches if it is new. Returns
    /// whether it was added.
    pub fn adopt_master(&mut self, current: CacheAddr) -> (added: bool)
        ensures
            final(self)@ == old(self)@.adopt_master(current),
            added == !old(self)@.discovered_masters.contains(current),
    {
        self.last_known_master = current;
        let known = contains_addr(&self.discovered_masters, &current);
        if !known {
            self.discovered_masters.push(current);
        }
        !known
    }

    /// Records that `slave` is connected to the master: it is added to the
    /// discovered caches if it is new. Returns whether it was added.
    pub fn add_slave(&mut self, slave: CacheAddr) -> (added: bool)
        ensures
            final(self)@ == old(self)@.add_slave(slave),
            added == !old(self)@.discovered_masters.contains(slave),
    {
        let known = contains_addr(&self.discovered_masters, &slave);
        if !known {
            self.discovered_masters.push(slave);
        }
        !known
    }
}

/// The number written by the decimal digits `d`.
pub open spec fn decimal_value(d: Seq<char>) -> nat
    decreases d.len(),
{
    if d.len() == 0 {
        0
    } else {
        decimal_value(d.drop_last()) * 10 + ((d.last() as int - '0' as int) as nat)
    }
}

/// `d` is one or more ASCII decimal digits.
pub open spec fn is_digits(d: Seq<char>) -> bool {
    d.len() > 0 && forall|i: int| 0 <= i < d.len() ==> '0' <= #[trigger] d[i] <= '9'
}

/// The `u64` that `text` writes in decimal, with an optional leading `+`;
/// `None` for any other text and for a number above `u64::MAX`.
pub open spec fn u64_of_text(text: Seq<char>) -> Option<u64> {
    let d = if text.len() > 0 && text[0] == '+' {
        text.drop_first()
    } else {
        text
    };
    if is_digits(d) && decimal_value(d) <= u64::MAX {
        Some(decimal_value(d) as u64)
    } else {
        None
    }
}

/// A prefix of a string of digits writes a number no larger than the whole.
proof fn lemma_decimal_prefix_le(d: Seq<char>, k: int)
    requires
        0 <= k <= d.len(),
        forall|i: int| 0 <= i < d.len() ==> '0' <= #[trigger] d[i] <= '9',
    ensures
        decimal_value(d.take(k)) <= decimal_value(d),
    decreases d.len(),
{
    if k < d.len() {
        lemma_decimal_prefix_le(d.drop_last(), k);
        assert(d.drop_last().take(k) =~= d.take(k));
    } else {
        assert(d.take(k) =~= d);
    }
}

/// The sentinel timeout, in milliseconds, given as `text` on the command
/// line: an optional `+` and one or more decimal digits, as `u64` values are
/// read from text; `None` for any other text or a number above `u64::MAX`.
pub fn parse_sentinel_timeout(text: &str) -> (timeout: Option<u64>)
    ensures
        timeout == u64_of_text(text@),
{
    let n = text.unicode_len();
    let start: usize = if n > 0 && text.get_char(0) == '+' {
        1
    } else {
        0
    };
    let ghost d = if text@.len() > 0 && text@[0] == '+' {
        text@.drop_first()
    } else {
        text@
    };
    assert(d =~= text@.subrange(start as int, n as int));
    if start == n {
        return None;
    }
    let mut value: u64 = 0;
    let mut i: usize = start;
    assert(text@.subrange(start as int, start as int) =~= Seq::<char>::empty());
    while i < n
        invariant
            n == text@.len(),
            start <= i <= n,
            start < n,
            d == text@.subrange(start as int, n as int),
            u64_of_text(text@) == (if is_digits(d) && decimal_value(d) <= u64::MAX {
                Some(decimal_value(d) as u64)
            } else {
                None
            }),
            forall|j: int| start <= j < i ==> '0' <= #[trigger] text@[j] <= '9',
            value == decimal_value(text@.subrange(start as int, i as int)),
        decreases n - i,
    {
        let c = text.get_char(i);
        if c < '0' || c > '9' {
            assert(d[i - start] == c);
            return None;
        }
        let digit: u64 = (c as u32 - '0' as u32) as u64;
        let ghost p = text@.subrange(start as int, i + 1);
        assert(p.drop_last() =~= text@.subrange(start as int, i as int));
        assert(p.last() == c);
        assert(decimal_value(p) == value * 10 + digit);
        proof {
            if is_digits(d) {
                lemma_decimal_prefix_le(d, i + 1 - start);
                assert(d.take(i + 1 - start) =~= p);
            }
        }
        match value.checked_mul(10) {
            None => {
                return None;
            },
            Some(m) => match m.checked_add(digit) {
                None => {
                    return None;
                },
                Some(v) => {
                    value = v;
                },
            },
        }
        i = i + 1;
    }
    assert(forall|j: int| 0 <= j < d.len() ==> d[j] == text@[start + j]);
    Some(value)
}

/// Adopting a master always leaves the state well formed: the adopted master
/// is the last known master and one of the discovered caches.
pub proof fn lemma_adopt_master_well_formed(v: InnerView, master: CacheAddr)
    ensures
        v.adopt_master(master).well_formed(),
        v.adopt_master(master).last_known_master == master,
{
    let d = v.discovered_masters;
    if !d.contains(master) {
        assert(d.push(master)[d.len() as int] == master);
    }
}

/// Recording a replica keeps a well-formed state well formed.
pub proof fn lemma_add_slave_keeps_well_formed(v: InnerView, cache: CacheAddr)
    requires
        v.well_formed(),
    ensures
        v.add_slave(cache).well_formed(),
{
    let d = v.discovered_masters;
    let i = choose|i: int| 0 <= i < d.len() && d[i] == v.last_known_master;
    if !d.contains(cache) {
        assert(d.push(cache)[i] == v.last_known_master);
    }
}

/// No cache is ever forgotten: the caches discovered before an update are a
/// prefix of those after it, and an update adds at most the cache it is given,
/// which is discovered afterwards.
pub proof fn lemma_caches_only_grow(v: InnerView, cache: CacheAddr)
    ensures
        v.discovered_masters.is_prefix_of(v.adopt_master(cache).discovered_masters),
        v.discovered_masters.is_prefix_of(v.add_slave(cache).discovered_masters),
        v.adopt_master(cache).discovered_masters.len() <= v.discovered_masters.len() + 1,
        v.add_slave(cache).discovered_masters.len() <= v.discovered_masters.len() + 1,
        v.adopt_master(cache).discovered_masters.contains(cache),
        v.add_slave(cache).discovered_masters.contains(cache),
{
    let d = v.discovered_masters;
    if !d.contains(cache) {
        assert(d.push(cache)[d.len() as int] == cache);
        assert(d =~= d.push(cache).subrange(0, d.len() as int));
    } else {
        assert(d =~= d.subrange(0, d.len() as int));
    }
}

/// An update never lists a cache twice.
pub proof fn lemma_updates_keep_caches_distinct(v: InnerView, cache: CacheAddr)
    requires
        v.discovered_masters.no_duplicates(),
    ensures
        v.adopt_master(cache).discovered_masters.no_duplicates(),
        v.add_slave(cache).discovered_masters.no_duplicates(),
{
    let d = v.discovered_masters;
    if !d.contains(cache) {
        let e = d.push(cache);
        assert forall|i: int, j: int| 0 <= i < e.len() && 0 <= j < e.len() && i != j implies e[i]
            != e[j] by {
            if i == d.len() {
                assert(e[j] == d[j]);
            } else if j == d.len() {
                assert(e[i] == d[i]);
            }
        }
    }
}

/// Each update, made twice with the same cache, has the effect of making it
/// once.
pub proof fn lemma_updates_idempotent(v: InnerView, cache: CacheAddr)
    ensures
        v.adopt_master(cache).adopt_master(cache) == v.adopt_master(cache),
        v.add_slave(cache).add_slave(cache) == v.add_slave(cache),
{
    lemma_caches_only_grow(v, cache);
}

/// Adopting the master that a well-formed state already knows changes
/// nothing.
pub proof fn lemma_adopt_known_master(v: InnerView)
    requires
        v.well_formed(),
    ensures
        v.adopt_master(v.last_known_master) == v,
{
}

} // verus!
