//! The pool of idle connections, by key: which connection a request gets, and which
//! connections are kept when a request is done with them.
use std::collections::VecDeque;
use vstd::prelude::*;

use crate::client::connection::HttpConnection;
use crate::client::key::Key;
use crate::common::header::Version;

verus! {

/// Idle connections kept per key when no limit is given.
pub const DEFAULT_KEEPALIVE_CONNS: usize = 256;

/// Keys the pool starts with room for.
pub const DEFAULT_POOL_SIZE: usize = 32;

/// The most idle connections kept per key.
pub const MAX_KEEPALIVE_CONNS: usize = 16384;

#[verifier::external_type_specification]
#[verifier::external_body]
pub struct ExInstant(std::time::Instant);

/// `Instant::now`.
#[verifier::external_body]
fn now() -> (r: std::time::Instant) {
    std::time::Instant::now()
}

/// `Instant::elapsed`: the time passed since `since`. It rests on the clock, so nothing
/// is stated of it.
#[verifier::external_body]
fn instant_elapsed(since: &std::time::Instant) -> (r: std::time::Duration) {
    since.elapsed()
}

/// What `Duration::as_nanos` gives for `d`: the whole length of `d` in nanoseconds.
pub uninterp spec fn duration_as_nanos(d: std::time::Duration) -> u128;

/// `Duration::as_nanos`: the whole length of `d` in nanoseconds, a function of `d` alone,
/// which orders durations as `Duration`'s own comparison does.
#[verifier::external_body]
fn duration_nanos(d: std::time::Duration) -> (r: u128)
    ensures
        r == duration_as_nanos(d),
{
    d.as_nanos()
}

/// What identifies a key in the pool: host, port and version.
pub type KeyId = (Seq<char>, u16, Version);

pub open spec fn key_id(k: Key) -> KeyId {
    (k.host@, k.port, k.version)
}

/// Whether the pool has a queue for `k`.
pub open spec fn has_key<T>(m: Seq<(KeyId, Seq<T>)>, k: KeyId) -> bool {
    exists|i: int| 0 <= i < m.len() && (#[trigger] m[i]).0 == k
}

/// The position of the queue for `k` (meaningful where there is one).
pub open spec fn key_index<T>(m: Seq<(KeyId, Seq<T>)>, k: KeyId) -> int {
    choose|i: int| 0 <= i < m.len() && (#[trigger] m[i]).0 == k
}

/// The queue for `k`; empty where there is none.
pub open spec fn queue_of<T>(m: Seq<(KeyId, Seq<T>)>, k: KeyId) -> Seq<T> {
    if has_key(m, k) {
        m[key_index(m, k)].1
    } else {
        Seq::empty()
    }
}

/// The items of `q` whose idle time in `elapsed` (read by position) is at most `limit`,
/// in their order.
pub open spec fn keep_fresh<T>(q: Seq<T>, elapsed: Seq<u128>, limit: u128) -> Seq<T>
    decreases q.len(),
{
    if q.len() == 0 {
        Seq::empty()
    } else {
        let rest = keep_fresh(q.drop_last(), elapsed, limit);
        if elapsed[q.len() - 1] <= limit {
            rest.push(q.last())
        } else {
            rest
        }
    }
}

/// `rs` holds one idle time per connection of `m`, queue by queue.
pub open spec fn readings_fit<T>(rs: Seq<Seq<u128>>, m: Seq<(KeyId, Seq<T>)>) -> bool {
    &&& rs.len() == m.len()
    &&& forall|i: int| 0 <= i < m.len() ==> (#[trigger] rs[i]).len() == m[i].1.len()
}

/// The idle times held in `readings`, queue by queue.
pub open spec fn readings_view(readings: Seq<Vec<u128>>) -> Seq<Seq<u128>> {
    readings.map_values(|v: Vec<u128>| v@)
}

/// Each queue of `m` cut down to its connections idle for at most `limit`, by the idle
/// times `rs` (queue by queue, by position), and the queues left empty gone.
pub open spec fn sweep_idle<T>(m: Seq<(KeyId, Seq<T>)>, rs: Seq<Seq<u128>>, limit: u128) -> Seq<
    (KeyId, Seq<T>),
>
    decreases m.len(),
{
    if m.len() == 0 {
        Seq::empty()
    } else {
        let rest = sweep_idle(m.drop_last(), rs, limit);
        let q = keep_fresh(m.last().1, rs[m.len() - 1], limit);
        if q.len() > 0 {
            rest.push((m.last().0, q))
        } else {
            rest
        }
    }
}

/// No key has two queues.
pub open spec fn keys_unique<T>(m: Seq<(KeyId, Seq<T>)>) -> bool {
    forall|i: int, j: int|
        0 <= i < m.len() && 0 <= j < m.len() && i != j ==> (#[trigger] m[i]).0 != (#[trigger] m[j]).0
}

/// `q` as the queue for `k`.
pub open spec fn set_queue<T>(m: Seq<(KeyId, Seq<T>)>, k: KeyId, q: Seq<T>) -> Seq<(KeyId, Seq<T>)> {
    if has_key(m, k) {
        m.update(key_index(m, k), (k, q))
    } else {
        m.push((k, q))
    }
}

/// The queue for `k` gone.
pub open spec fn remove_queue<T>(m: Seq<(KeyId, Seq<T>)>, k: KeyId) -> Seq<(KeyId, Seq<T>)> {
    if has_key(m, k) {
        m.remove(key_index(m, k))
    } else {
        m
    }
}

/// The pool after a connection is handed back under `k`: dropped where it may not be
/// used again and holds no HTTP/2 queue to clear; else the key's queue is cleared where
/// an HTTP/2 connection is to be removed, and a connection that may be used again goes
/// to the back of its key's queue, the oldest one leaving first where the queue holds
/// more than `max_idle`.
pub open spec fn give_back_spec<T>(
    m: Seq<(KeyId, Seq<T>)>,
    k: KeyId,
    conn: T,
    reusable: bool,
    remove_h2: bool,
    max_idle: usize,
) -> Seq<(KeyId, Seq<T>)> {
    if !reusable && !remove_h2 {
        m
    } else {
        let m1 = if remove_h2 {
            remove_queue(m, k)
        } else {
            m
        };
        if reusable {
            let q = queue_of(m1, k);
            let q1 = if q.len() > max_idle {
                q.drop_first()
            } else {
                q
            };
            set_queue(m1, k, q1.push(conn))
        } else {
            m1
        }
    }
}

/// A connection waiting in the pool, and since when: the pool's clock (nanoseconds
/// since the pool began) when it was handed back.
pub struct IdleConnection<C, S> {
    conn: HttpConnection<C, S>,
    idle_at: u128,
}

/// A connection handed out by the pool, and whether it goes back to the pool once the
/// request is done (an HTTP/2 connection stays in the pool while shared, so it does
/// not).
pub struct Checkout<C, S> {
    pub conn: HttpConnection<C, S>,
    pub reusable: bool,
}

/// The idle connections of a client, queued by key, oldest first. The queues are kept
/// in a list, one per key and no key twice, so that what the pool holds for each key
/// can be stated and proved; the keys' order means nothing.
pub struct SharedInner<C, S> {
    mapping: Vec<(Key, VecDeque<IdleConnection<C, S>>)>,
    max_idle: usize,
    start: std::time::Instant,
}

pub closed spec fn idle_view<C, S>(q: Seq<IdleConnection<C, S>>) -> Seq<HttpConnection<C, S>> {
    q.map_values(|i: IdleConnection<C, S>| i.conn)
}

/// When each connection of a queue was handed back, by the pool's clock.
pub closed spec fn stamps_view<C, S>(q: Seq<IdleConnection<C, S>>) -> Seq<u128> {
    q.map_values(|i: IdleConnection<C, S>| i.idle_at)
}

/// How long a connection handed back at `stamp` has been idle at clock reading `now`.
pub open spec fn idle_time(now: u128, stamp: u128) -> u128 {
    if stamp <= now {
        (now - stamp) as u128
    } else {
        0
    }
}

/// The idle times at clock reading `now` of connections handed back at `stamps`.
pub open spec fn own_idle_times(stamps: Seq<u128>, now: u128) -> Seq<u128> {
    stamps.map_values(|t: u128| idle_time(now, t))
}

/// The idle times at clock reading `now`, queue by queue.
pub open spec fn idle_readings(stamps: Seq<Seq<u128>>, now: u128) -> Seq<Seq<u128>> {
    stamps.map_values(|q: Seq<u128>| own_idle_times(q, now))
}

/// No stamp is later than `now`.
pub open spec fn stamps_before(stamps: Seq<Seq<u128>>, now: u128) -> bool {
    forall|i: int, j: int| 0 <= i < stamps.len() && 0 <= j < stamps[i].len() ==> #[trigger] stamps[i][j] <= now
}

impl<C, S> View for SharedInner<C, S> {
    type V = Seq<(KeyId, Seq<HttpConnection<C, S>>)>;

    closed spec fn view(&self) -> Seq<(KeyId, Seq<HttpConnection<C, S>>)> {
        self.mapping@.map_values(
            |e: (Key, VecDeque<IdleConnection<C, S>>)| (key_id(e.0), idle_view(e.1@)),
        )
    }
}

/// The idle limit per key: the one asked for, capped at `MAX_KEEPALIVE_CONNS`, or
/// `DEFAULT_KEEPALIVE_CONNS`.
pub open spec fn idle_limit(max_idle: Option<usize>) -> usize {
    match max_idle {
        Some(n) => if n < MAX_KEEPALIVE_CONNS {
            n
        } else {
            MAX_KEEPALIVE_CONNS
        },
        None => DEFAULT_KEEPALIVE_CONNS,
    }
}

pub proof fn lemma_key_index<T>(m: Seq<(KeyId, Seq<T>)>, k: KeyId, i: int)
    requires
        keys_unique(m),
        0 <= i < m.len(),
        m[i].0 == k,
    ensures
        has_key(m, k),
        key_index(m, k) == i,
{
    let j = key_index(m, k);
    assert(0 <= j < m.len() && m[j].0 == k);
}

/// Keeps of `queue` the items idle for at most `limit` nanoseconds, `elapsed` giving each
/// item's idle time by position; what is kept stays in its order.
pub fn retain_fresh<T>(queue: VecDeque<T>, elapsed: &[u128], limit: u128) -> (r: VecDeque<T>)
    requires
        elapsed@.len() == queue@.len(),
    ensures
        r@ == keep_fresh(queue@, elapsed@, limit),
{
    let mut queue = queue;
    let ghost q0 = queue@;
    let mut fresh: VecDeque<T> = VecDeque::new();
    let mut i: usize = 0;
    assert(q0.take(0) =~= Seq::<T>::empty());
    assert(queue@ =~= q0.skip(0));
    while queue.len() > 0
        invariant
            i <= q0.len(),
            elapsed@.len() == q0.len(),
            queue@ == q0.skip(i as int),
            fresh@ == keep_fresh(q0.take(i as int), elapsed@, limit),
        decreases queue@.len(),
    {
        let ghost before = queue@;
        if let Some(item) = queue.pop_front() {
            assert(before[0] == q0[i as int]);
            assert(queue@ =~= q0.skip(i + 1));
            assert(q0.take(i + 1).drop_last() =~= q0.take(i as int));
            assert(q0.take(i + 1).last() == item);
            if elapsed[i] <= limit {
                fresh.push_back(item);
            }
            i += 1;
        }
    }
    assert(q0.take(i as int) =~= q0);
    fresh
}

/// How long each connection of `queue` has been idle at clock reading `now`, in
/// nanoseconds: each by the time it was itself handed back.
fn idle_times<C, S>(queue: &VecDeque<IdleConnection<C, S>>, now: u128) -> (r: Vec<u128>)
    ensures
        r@ == own_idle_times(stamps_view(queue@), now),
{
    let mut r: Vec<u128> = Vec::new();
    let mut i: usize = 0;
    while i < queue.len()
        invariant
            i <= queue@.len(),
            r@ == own_idle_times(stamps_view(queue@), now).take(i as int),
        decreases queue@.len() - i,
    {
        let stamp = queue[i].idle_at;
        let t = if stamp <= now {
            now - stamp
        } else {
            0
        };
        r.push(t);
        i += 1;
        assert(r@ =~= own_idle_times(stamps_view(queue@), now).take(i as int));
    }
    assert(own_idle_times(stamps_view(queue@), now).take(i as int) =~= own_idle_times(stamps_view(queue@), now));
    r
}

proof fn lemma_keep_fresh_map<A, B>(q: Seq<A>, elapsed: Seq<u128>, limit: u128, f: spec_fn(A) -> B)
    ensures
        keep_fresh(q.map_values(f), elapsed, limit) == keep_fresh(q, elapsed, limit).map_values(f),
    decreases q.len(),
{
    if q.len() > 0 {
        assert(q.map_values(f).drop_last() =~= q.drop_last().map_values(f));
        lemma_keep_fresh_map(q.drop_last(), elapsed, limit, f);
        let rest = keep_fresh(q.drop_last(), elapsed, limit);
        assert(rest.push(q.last()).map_values(f) =~= rest.map_values(f).push(f(q.last())));
    } else {
        assert(keep_fresh(q, elapsed, limit).map_values(f) =~= Seq::<B>::empty());
    }
}

/// What `sweep_idle` keeps is under keys of `m`, no key twice.
proof fn lemma_sweep_keys<T>(m: Seq<(KeyId, Seq<T>)>, rs: Seq<Seq<u128>>, limit: u128)
    requires
        keys_unique(m),
    ensures
        keys_unique(sweep_idle(m, rs, limit)),
        forall|i: int| 0 <= i < sweep_idle(m, rs, limit).len() ==> has_key(m, #[trigger] sweep_idle(m, rs, limit)[i].0),
    decreases m.len(),
{
    if m.len() > 0 {
        let m1 = m.drop_last();
        assert forall|i: int, j: int| 0 <= i < m1.len() && 0 <= j < m1.len() && i != j implies (#[trigger] m1[i]).0 != (#[trigger] m1[j]).0 by {
            assert(m1[i] == m[i] && m1[j] == m[j]);
        }
        lemma_sweep_keys(m1, rs, limit);
        let rest = sweep_idle(m1, rs, limit);
        let q = keep_fresh(m.last().1, rs[m.len() - 1], limit);
        let s = sweep_idle(m, rs, limit);
        assert forall|i: int| 0 <= i < rest.len() implies has_key(m, #[trigger] rest[i].0) && rest[i].0 != m.last().0 by {
            assert(has_key(m1, rest[i].0));
            let j = choose|j: int| 0 <= j < m1.len() && (#[trigger] m1[j]).0 == rest[i].0;
            assert(m[j] == m1[j]);
            assert(m[m.len() - 1] == m.last());
        }
        if q.len() > 0 {
            assert(s == rest.push((m.last().0, q)));
            assert(m[m.len() - 1] == m.last());
            assert forall|i: int| 0 <= i < s.len() implies has_key(m, #[trigger] s[i].0) by {
                if i < rest.len() {
                    assert(s[i] == rest[i]);
                }
            }
            assert forall|i: int, j: int| 0 <= i < s.len() && 0 <= j < s.len() && i != j implies (#[trigger] s[i]).0 != (#[trigger] s[j]).0 by {
                if i < rest.len() {
                    assert(s[i] == rest[i]);
                }
                if j < rest.len() {
                    assert(s[j] == rest[j]);
                }
            }
        }
    }
}

/// `f` picks, in increasing order, the places in `q` of the items of `kept`.
pub open spec fn picks<T>(kept: Seq<T>, q: Seq<T>, f: spec_fn(int) -> int) -> bool {
    &&& forall|k: int| 0 <= k < kept.len() ==> 0 <= #[trigger] f(k) < q.len() && kept[k] == q[f(k)]
    &&& forall|k: int, l: int| 0 <= k < l < kept.len() ==> #[trigger] f(k) < #[trigger] f(l)
}

/// The law of keeping the fresh: what is kept of a queue is, in order, exactly its
/// connections whose own idle time is at most `limit`. The picking `f` it returns maps
/// each kept connection to its place in the queue; every place it picks has an idle time
/// within the limit, and every place with an idle time within the limit is picked.
pub proof fn lemma_keep_fresh_exact<T>(q: Seq<T>, elapsed: Seq<u128>, limit: u128) -> (f: spec_fn(int) -> int)
    requires
        elapsed.len() == q.len(),
    ensures
        picks(keep_fresh(q, elapsed, limit), q, f),
        forall|k: int| 0 <= k < keep_fresh(q, elapsed, limit).len() ==> elapsed[#[trigger] f(k)] <= limit,
        forall|j: int|
            0 <= j < q.len() && elapsed[j] <= limit ==> exists|k: int|
                0 <= k < keep_fresh(q, elapsed, limit).len() && #[trigger] f(k) == j,
    decreases q.len(),
{
    if q.len() == 0 {
        |k: int| k
    } else {
        let q1 = q.drop_last();
        let n = q.len() - 1;
        let g = lemma_keep_fresh_exact(q1, elapsed.take(n), limit);
        lemma_keep_fresh_prefix(q1, elapsed.take(n), elapsed, limit);
        let kept1 = keep_fresh(q1, elapsed, limit);
        if elapsed[n] <= limit {
            let f = |k: int| if k < kept1.len() { g(k) } else { n };
            let kept = keep_fresh(q, elapsed, limit);
            assert(kept == kept1.push(q.last()));
            assert forall|k: int| 0 <= k < kept.len() implies 0 <= #[trigger] f(k) < q.len() && kept[k] == q[f(k)]
                && elapsed[f(k)] <= limit by {
                if k < kept1.len() {
                    assert(q1[g(k)] == q[g(k)]);
                    assert(elapsed.take(n)[g(k)] == elapsed[g(k)]);
                }
            }
            assert forall|k: int, l: int| 0 <= k < l < kept.len() implies #[trigger] f(k) < #[trigger] f(l) by {
                if l < kept1.len() {
                    assert(g(k) < g(l));
                }
            }
            assert forall|j: int| 0 <= j < q.len() && elapsed[j] <= limit implies exists|k: int|
                0 <= k < kept.len() && #[trigger] f(k) == j by {
                if j < n {
                    assert(elapsed.take(n)[j] == elapsed[j]);
                    let k = choose|k: int| 0 <= k < kept1.len() && #[trigger] g(k) == j;
                    assert(f(k) == j);
                } else {
                    assert(f(kept1.len() as int) == j);
                }
            }
            f
        } else {
            let kept = keep_fresh(q, elapsed, limit);
            assert(kept == kept1);
            assert forall|k: int| 0 <= k < kept.len() implies 0 <= #[trigger] g(k) < q.len() && kept[k] == q[g(k)]
                && elapsed[g(k)] <= limit by {
                assert(q1[g(k)] == q[g(k)]);
                assert(elapsed.take(n)[g(k)] == elapsed[g(k)]);
            }
            assert forall|j: int| 0 <= j < q.len() && elapsed[j] <= limit implies exists|k: int|
                0 <= k < kept.len() && #[trigger] g(k) == j by {
                assert(j < n);
                assert(elapsed.take(n)[j] == elapsed[j]);
            }
            g
        }
    }
}

/// `keep_fresh` reads only the idle times of the places `q` has.
proof fn lemma_keep_fresh_prefix<T>(q: Seq<T>, e1: Seq<u128>, e2: Seq<u128>, limit: u128)
    requires
        forall|j: int| 0 <= j < q.len() ==> e1[j] == e2[j],
    ensures
        keep_fresh(q, e1, limit) == keep_fresh(q, e2, limit),
    decreases q.len(),
{
    if q.len() > 0 {
        lemma_keep_fresh_prefix(q.drop_last(), e1, e2, limit);
        assert(e1[q.len() - 1] == e2[q.len() - 1]);
    }
}

/// The law of the sweep by key: after the pool is swept, the queue of each key it held
/// is that key's own queue cut down by `keep_fresh` with that queue's own idle times
/// (empty, and the key gone, where nothing is kept).
pub proof fn lemma_sweep_queue<T>(m: Seq<(KeyId, Seq<T>)>, rs: Seq<Seq<u128>>, limit: u128, i: int)
    requires
        keys_unique(m),
        0 <= i < m.len(),
    ensures
        queue_of(sweep_idle(m, rs, limit), m[i].0) == keep_fresh(m[i].1, rs[i], limit),
    decreases m.len(),
{
    let n = m.len() - 1;
    let m1 = m.drop_last();
    assert forall|a: int, b: int| 0 <= a < m1.len() && 0 <= b < m1.len() && a != b implies (#[trigger] m1[a]).0
        != (#[trigger] m1[b]).0 by {
        assert(m1[a] == m[a] && m1[b] == m[b]);
    }
    lemma_sweep_keys(m1, rs, limit);
    lemma_sweep_keys(m, rs, limit);
    let rest = sweep_idle(m1, rs, limit);
    let s = sweep_idle(m, rs, limit);
    let q = keep_fresh(m.last().1, rs[n], limit);
    let k = m[i].0;
    assert(m[n] == m.last());
    if i == n {
        assert(!has_key(rest, k)) by {
            if has_key(rest, k) {
                let a = choose|a: int| 0 <= a < rest.len() && (#[trigger] rest[a]).0 == k;
                assert(has_key(m1, rest[a].0));
                let b = choose|b: int| 0 <= b < m1.len() && (#[trigger] m1[b]).0 == k;
                assert(m1[b] == m[b]);
            }
        }
        if q.len() > 0 {
            assert(s == rest.push((k, q)));
            lemma_key_index(s, k, rest.len() as int);
        } else {
            assert(s == rest);
            assert(q =~= Seq::<T>::empty());
        }
    } else {
        assert(m1[i] == m[i]);
        lemma_sweep_queue(m1, rs, limit, i);
        assert(k != m.last().0);
        if q.len() > 0 {
            assert(s == rest.push((m.last().0, q)));
            if has_key(rest, k) {
                let a = key_index(rest, k);
                assert(s[a] == rest[a]);
                lemma_key_index(s, k, a);
            } else if has_key(s, k) {
                let a = choose|a: int| 0 <= a < s.len() && (#[trigger] s[a]).0 == k;
                if a < rest.len() {
                    assert(s[a] == rest[a]);
                }
            }
        } else {
            assert(s == rest);
        }
    }
}

impl<C, S> SharedInner<C, S> {
    #[verifier::type_invariant]
    closed spec fn inv(self) -> bool {
        keys_unique(self@)
    }

    /// The idle limit per key.
    pub closed spec fn max_idle(self) -> usize {
        self.max_idle
    }

    /// An empty pool keeping at most `idle_limit(max_idle)` idle connections per key.
    pub fn new(max_idle: Option<usize>) -> (r: Self)
        ensures
            r@ == Seq::<(KeyId, Seq<HttpConnection<C, S>>)>::empty(),
            r.max_idle() == idle_limit(max_idle),
    {
        let limit = match max_idle {
            Some(n) => if n < MAX_KEEPALIVE_CONNS {
                n
            } else {
                MAX_KEEPALIVE_CONNS
            },
            None => DEFAULT_KEEPALIVE_CONNS,
        };
        let r = SharedInner { mapping: Vec::with_capacity(DEFAULT_POOL_SIZE), max_idle: limit, start: now() };
        assert(r@ =~= Seq::<(KeyId, Seq<HttpConnection<C, S>>)>::empty());
        r
    }

    /// The position of the queue for `key`, if there is one.
    fn position(&self, key: &Key) -> (r: Option<usize>)
        ensures
            r is None <==> !has_key(self@, key_id(*key)),
            r matches Some(i) ==> i < self@.len() && key_index(self@, key_id(*key)) == i,
    {
        proof {
            use_type_invariant(self);
        }
        let mut i: usize = 0;
        while i < self.mapping.len()
            invariant
                i <= self.mapping@.len(),
                self@.len() == self.mapping@.len(),
                keys_unique(self@),
                forall|j: int| 0 <= j < i ==> (#[trigger] self@[j]).0 != key_id(*key),
            decreases self.mapping@.len() - i,
        {
            assert(self@[i as int].0 == key_id(self.mapping@[i as int].0));
            if self.mapping[i].0.same_key(key) {
                proof {
                    lemma_key_index(self@, key_id(*key), i as int);
                }
                return Some(i);
            }
            i += 1;
        }
        None
    }

    /// When each idle connection was handed back, by the pool's clock, queue by queue.
    pub closed spec fn idle_stamps(self) -> Seq<Seq<u128>> {
        self.mapping@.map_values(|e: (Key, VecDeque<IdleConnection<C, S>>)| stamps_view(e.1@))
    }

    /// The pool's clock: the nanoseconds since the pool began, as the clock says.
    fn clock(&self) -> (r: u128) {
        duration_nanos(instant_elapsed(&self.start))
    }

    /// The latest time a connection still in the pool was handed back (0 where none is).
    fn latest_stamp(&self) -> (r: u128)
        ensures
            stamps_before(self.idle_stamps(), r),
    {
        let mut latest: u128 = 0;
        let mut i: usize = 0;
        while i < self.mapping.len()
            invariant
                i <= self.mapping@.len(),
                self.idle_stamps().len() == self.mapping@.len(),
                forall|a: int, j: int|
                    0 <= a < i && 0 <= j < self.idle_stamps()[a].len() ==> #[trigger] self.idle_stamps()[a][j] <= latest,
            decreases self.mapping@.len() - i,
        {
            let queue = &self.mapping[i].1;
            let ghost before = latest;
            assert(self.idle_stamps()[i as int] == stamps_view(queue@));
            let mut j: usize = 0;
            while j < queue.len()
                invariant
                    j <= queue@.len(),
                    before <= latest,
                    self.idle_stamps()[i as int] == stamps_view(queue@),
                    forall|k: int| 0 <= k < j ==> #[trigger] stamps_view(queue@)[k] <= latest,
                decreases queue@.len() - j,
            {
                if queue[j].idle_at > latest {
                    latest = queue[j].idle_at;
                }
                j += 1;
            }
            i += 1;
        }
        latest
    }

    /// Drops the idle connections idle for longer than `dur`, and the queues left empty.
    /// The clock is read once, as `now`, no earlier than any connection was handed back
    /// (the clock does not go back); each connection is then timed by its own idle time,
    /// `now` less the time it was handed back: the pool ends as `sweep_idle` gives it for
    /// those idle times.
    pub fn clear_expired(&mut self, dur: std::time::Duration)
        ensures
            final(self).max_idle() == old(self).max_idle(),
            exists|rs: Seq<Seq<u128>>|
                #[trigger] readings_fit(rs, old(self)@) && final(self)@ == sweep_idle(
                    old(self)@,
                    rs,
                    duration_as_nanos(dur),
                ),
            exists|now: u128|
                #[trigger] stamps_before(old(self).idle_stamps(), now) && final(self)@ == sweep_idle(
                    old(self)@,
                    idle_readings(old(self).idle_stamps(), now),
                    duration_as_nanos(dur),
                ),
    {
        let limit = duration_nanos(dur);
        let reading = self.clock();
        let latest = self.latest_stamp();
        let now = if reading < latest {
            latest
        } else {
            reading
        };
        let readings = self.idle_times_by_key(now);
        self.sweep_expired(&readings, limit);
        assert(readings_fit(readings_view(readings@), old(self)@));
        assert(stamps_before(old(self).idle_stamps(), now));
    }

    /// How long each idle connection has been idle at clock reading `now`, queue by
    /// queue: each by the time it was itself handed back.
    fn idle_times_by_key(&self, now: u128) -> (r: Vec<Vec<u128>>)
        ensures
            readings_fit(readings_view(r@), self@),
            readings_view(r@) == idle_readings(self.idle_stamps(), now),
    {
        let mut r: Vec<Vec<u128>> = Vec::new();
        let mut i: usize = 0;
        while i < self.mapping.len()
            invariant
                i <= self.mapping@.len(),
                self@.len() == self.mapping@.len(),
                self.idle_stamps().len() == self.mapping@.len(),
                r@.len() == i,
                forall|a: int| 0 <= a < i ==> (#[trigger] r@[a])@.len() == self@[a].1.len(),
                forall|a: int| 0 <= a < i ==> (#[trigger] r@[a])@ == own_idle_times(self.idle_stamps()[a], now),
            decreases self.mapping@.len() - i,
        {
            assert(self@[i as int].1 == idle_view(self.mapping@[i as int].1@));
            assert(self.idle_stamps()[i as int] == stamps_view(self.mapping@[i as int].1@));
            let times = idle_times(&self.mapping[i].1, now);
            r.push(times);
            i += 1;
        }
        assert(readings_view(r@) =~= idle_readings(self.idle_stamps(), now));
        r
    }

    /// Drops the idle connections idle for longer than `limit` nanoseconds, `readings`
    /// giving each connection's idle time (queue by queue, by position), and the queues
    /// left empty: the pool ends as `sweep_idle` says.
    pub fn sweep_expired(&mut self, readings: &Vec<Vec<u128>>, limit: u128)
        requires
            readings_fit(readings_view(readings@), old(self)@),
        ensures
            final(self).max_idle() == old(self).max_idle(),
            final(self)@ == sweep_idle(old(self)@, readings_view(readings@), limit),
    {
        proof {
            use_type_invariant(&*self);
        }
        let ghost m = self@;
        let ghost rs = readings_view(readings@);
        let mut mapping: Vec<(Key, VecDeque<IdleConnection<C, S>>)> = Vec::new();
        std::mem::swap(&mut mapping, &mut self.mapping);
        let ghost old_mapping = mapping@;
        assert(old_mapping.map_values(|e: (Key, VecDeque<IdleConnection<C, S>>)| (key_id(e.0), idle_view(e.1@))) == m);
        let mut kept: Vec<(Key, VecDeque<IdleConnection<C, S>>)> = Vec::new();
        let mut n: usize = 0;
        let total = mapping.len();
        assert(kept@.map_values(|e: (Key, VecDeque<IdleConnection<C, S>>)| (key_id(e.0), idle_view(e.1@)))
            =~= sweep_idle(m.take(0), rs, limit));
        while n < total
            invariant
                total == old_mapping.len(),
                n <= total,
                mapping@ == old_mapping.skip(n as int),
                m.len() == old_mapping.len(),
                forall|a: int| 0 <= a < m.len() ==> (#[trigger] m[a]) == (key_id(old_mapping[a].0), idle_view(old_mapping[a].1@)),
                keys_unique(m),
                rs == readings_view(readings@),
                readings_fit(rs, m),
                kept@.map_values(|e: (Key, VecDeque<IdleConnection<C, S>>)| (key_id(e.0), idle_view(e.1@)))
                    == sweep_idle(m.take(n as int), rs, limit),
            decreases total - n,
        {
            let ghost before = mapping@;
            let ghost kb = kept@;
            let (entry_key, queue) = mapping.remove(0);
            assert(mapping@ =~= old_mapping.skip(n + 1));
            assert(before[0] == old_mapping[n as int]);
            assert(rs[n as int] == readings@[n as int]@);
            assert(idle_view(queue@).len() == queue@.len());
            let fresh = retain_fresh(queue, readings[n].as_slice(), limit);
            proof {
                lemma_keep_fresh_map(before[0].1@, rs[n as int], limit, |i: IdleConnection<C, S>| i.conn);
                assert(m.take(n + 1).drop_last() =~= m.take(n as int));
            }
            if fresh.len() > 0 {
                kept.push((entry_key, fresh));
            }
            proof {
                let f = |e: (Key, VecDeque<IdleConnection<C, S>>)| (key_id(e.0), idle_view(e.1@));
                if fresh@.len() > 0 {
                    assert(kept@ =~= kb.push((entry_key, fresh)));
                    assert(kept@.map_values(f) =~= kb.map_values(f).push(f((entry_key, fresh))));
                }
            }
            n += 1;
        }
        proof {
            assert(m.take(total as int) =~= m);
            lemma_sweep_keys(m, rs, limit);
        }
        self.mapping = kept;
    }

    /// Takes back a connection that a request is done with, as `give_back_spec` says.
    pub fn give_back(&mut self, key: Key, conn: HttpConnection<C, S>, reusable: bool, remove_h2: bool)
        ensures
            final(self)@ == give_back_spec(old(self)@, key_id(key), conn, reusable, remove_h2, old(self).max_idle()),
            final(self).max_idle() == old(self).max_idle(),
    {
        proof {
            use_type_invariant(&*self);
        }
        if !reusable && !remove_h2 {
            return;
        }
        let ghost m = self@;
        let ghost k = key_id(key);
        if remove_h2 {
            self.remove_key(&key);
        }
        let ghost m1 = self@;
        assert(m1 == if remove_h2 { remove_queue(m, k) } else { m });
        if reusable {
            let idle = IdleConnection { conn, idle_at: self.clock() };
            self.push_idle(key, idle);
        }
    }

    /// Removes the queue for `key`, if there is one.
    fn remove_key(&mut self, key: &Key)
        ensures
            final(self)@ == remove_queue(old(self)@, key_id(*key)),
            final(self).max_idle() == old(self).max_idle(),
    {
        proof {
            use_type_invariant(&*self);
        }
        let ghost m = self@;
        if let Some(i) = self.position(key) {
            let mut mapping: Vec<(Key, VecDeque<IdleConnection<C, S>>)> = Vec::new();
            std::mem::swap(&mut mapping, &mut self.mapping);
            let ghost old_mapping = mapping@;
            assert(old_mapping.map_values(|e: (Key, VecDeque<IdleConnection<C, S>>)| (key_id(e.0), idle_view(e.1@))) == m);
            let _ = mapping.remove(i);
            proof {
                let nv = mapping@.map_values(|e: (Key, VecDeque<IdleConnection<C, S>>)| (key_id(e.0), idle_view(e.1@)));
                assert(nv =~= m.remove(i as int));
                assert forall|a: int, b: int|
                    0 <= a < nv.len() && 0 <= b < nv.len() && a != b implies (#[trigger] nv[a]).0
                    != (#[trigger] nv[b]).0 by {
                    let a0 = if a < i { a } else { a + 1 };
                    let b0 = if b < i { b } else { b + 1 };
                    assert(nv[a] == m[a0]);
                    assert(nv[b] == m[b0]);
                }
            }
            self.mapping = mapping;
        }
    }

    /// Puts `idle` at the back of the queue for `key` (made where there is none), the
    /// oldest leaving first where the queue holds more than the limit.
    fn push_idle(&mut self, key: Key, idle: IdleConnection<C, S>)
        ensures
            ({
                let q = queue_of(old(self)@, key_id(key));
                let q1 = if q.len() > old(self).max_idle() {
                    q.drop_first()
                } else {
                    q
                };
                final(self)@ == set_queue(old(self)@, key_id(key), q1.push(idle.conn))
            }),
            final(self).max_idle() == old(self).max_idle(),
    {
        proof {
            use_type_invariant(&*self);
        }
        let ghost m = self@;
        let ghost k = key_id(key);
        let max_idle = self.max_idle;
        let pos = self.position(&key);
        let mut mapping: Vec<(Key, VecDeque<IdleConnection<C, S>>)> = Vec::new();
        std::mem::swap(&mut mapping, &mut self.mapping);
        let ghost old_mapping = mapping@;
        assert(old_mapping.map_values(|e: (Key, VecDeque<IdleConnection<C, S>>)| (key_id(e.0), idle_view(e.1@))) == m);
        match pos {
            Some(i) => {
                let (entry_key, mut queue) = mapping.remove(i);
                let ghost q0 = queue@;
                assert(idle_view(q0) == m[i as int].1);
                assert(key_id(entry_key) == k);
                if queue.len() > max_idle {
                    let _ = queue.pop_front();
                }
                let ghost qd = queue@;
                queue.push_back(idle);
                proof {
                    let q = idle_view(q0);
                    let q1 = if q.len() > max_idle { q.drop_first() } else { q };
                    assert(idle_view(qd) =~= q1);
                    assert(idle_view(queue@) =~= q1.push(idle.conn));
                }
                let ghost new_entry = (entry_key, queue);
                mapping.insert(i, (entry_key, queue));
                proof {
                    assert(mapping@ =~= old_mapping.update(i as int, new_entry));
                    let nv = mapping@.map_values(|e: (Key, VecDeque<IdleConnection<C, S>>)| (key_id(e.0), idle_view(e.1@)));
                    assert(nv =~= m.update(i as int, (k, idle_view(queue@))));
                    assert forall|a: int, b: int|
                        0 <= a < nv.len() && 0 <= b < nv.len() && a != b implies (#[trigger] nv[a]).0
                        != (#[trigger] nv[b]).0 by {
                        if a != i {
                            assert(nv[a] == m[a]);
                        }
                        if b != i {
                            assert(nv[b] == m[b]);
                        }
                    }
                }
                self.mapping = mapping;
            },
            None => {
                let mut queue: VecDeque<IdleConnection<C, S>> = VecDeque::new();
                queue.push_back(idle);
                proof {
                    assert(idle_view(queue@) =~= Seq::<HttpConnection<C, S>>::empty().push(idle.conn));
                }
                let ghost new_entry = (key, queue);
                mapping.push((key, queue));
                proof {
                    assert(mapping@ =~= old_mapping.push(new_entry));
                    let nv = mapping@.map_values(|e: (Key, VecDeque<IdleConnection<C, S>>)| (key_id(e.0), idle_view(e.1@)));
                    assert(nv =~= m.push((k, idle_view(queue@))));
                    assert forall|a: int, b: int|
                        0 <= a < nv.len() && 0 <= b < nv.len() && a != b implies (#[trigger] nv[a]).0
                        != (#[trigger] nv[b]).0 by {
                        if a < m.len() {
                            assert(nv[a] == m[a]);
                        }
                        if b < m.len() {
                            assert(nv[b] == m[b]);
                        }
                    }
                }
                self.mapping = mapping;
            },
        }
    }
}

impl<C, S: Clone> SharedInner<C, S> {
    /// Hands out the oldest idle connection for `key`, if there is one. An HTTP/1
    /// connection leaves the pool and goes back once done; an HTTP/2 connection is
    /// shared: a handle on it is handed out, it moves to the back of its queue, and the
    /// handle does not go back.
    pub fn get(&mut self, key: &Key) -> (r: Option<Checkout<C, S>>)
        ensures
            ({
                let q = queue_of(old(self)@, key_id(*key));
                if q.len() == 0 {
                    r is None && final(self)@ == old(self)@
                } else {
                    match q[0] {
                        HttpConnection::H1(c) => r == Some(Checkout::<C, S> { conn: HttpConnection::H1(c), reusable: true })
                            && final(self)@ == set_queue(old(self)@, key_id(*key), q.drop_first()),
                        HttpConnection::H2(h) => {
                            &&& final(self)@ == set_queue(old(self)@, key_id(*key), q.drop_first().push(q[0]))
                            &&& r matches Some(ck) && !ck.reusable && (ck.conn matches HttpConnection::H2(g)
                                && vstd::pervasive::cloned(h, g))
                        },
                    }
                }
            }),
            final(self).max_idle() == old(self).max_idle(),
    {
        proof {
            use_type_invariant(&*self);
        }
        let ghost m = self@;
        let ghost k = key_id(*key);
        let i = match self.position(key) {
            Some(i) => i,
            None => return None,
        };
        let mut mapping: Vec<(Key, VecDeque<IdleConnection<C, S>>)> = Vec::new();
        std::mem::swap(&mut mapping, &mut self.mapping);
        let ghost old_mapping = mapping@;
        assert(old_mapping.map_values(|e: (Key, VecDeque<IdleConnection<C, S>>)| (key_id(e.0), idle_view(e.1@))) == m);
        let (entry_key, mut queue) = mapping.remove(i);
        let ghost q0 = queue@;
        assert(idle_view(q0) == m[i as int].1);
        let r = match queue.pop_front() {
            None => {
                let ghost new_entry = (entry_key, queue);
                mapping.insert(i, (entry_key, queue));
                proof {
                    assert(mapping@ =~= old_mapping.update(i as int, new_entry));
                    let nv = mapping@.map_values(|e: (Key, VecDeque<IdleConnection<C, S>>)| (key_id(e.0), idle_view(e.1@)));
                    assert(idle_view(queue@) =~= idle_view(q0));
                    assert(nv =~= m);
                }
                self.mapping = mapping;
                None
            },
            Some(idle) => {
                assert(idle_view(q0)[0] == idle.conn);
                let is_h2 = idle.conn.is_http2();
                let r = if is_h2 {
                    let handle = idle.conn.http2_conn_clone();
                    let readd = IdleConnection { conn: idle.conn, idle_at: self.clock() };
                    queue.push_back(readd);
                    proof {
                        assert(idle_view(queue@) =~= idle_view(q0).drop_first().push(idle_view(q0)[0]));
                    }
                    Checkout { conn: handle, reusable: false }
                } else {
                    proof {
                        assert(idle_view(queue@) =~= idle_view(q0).drop_first());
                    }
                    Checkout { conn: idle.conn, reusable: true }
                };
                let ghost new_entry = (entry_key, queue);
                mapping.insert(i, (entry_key, queue));
                proof {
                    assert(mapping@ =~= old_mapping.update(i as int, new_entry));
                    let nv = mapping@.map_values(|e: (Key, VecDeque<IdleConnection<C, S>>)| (key_id(e.0), idle_view(e.1@)));
                    assert(nv =~= m.update(i as int, (k, idle_view(queue@))));
                }
                self.mapping = mapping;
                Some(r)
            },
        };
        r
    }
}


/// Setting the queue of a key gives that key that queue, and keeps keys unique.
pub proof fn lemma_set_queue<T>(m: Seq<(KeyId, Seq<T>)>, k: KeyId, q: Seq<T>)
    requires
        keys_unique(m),
    ensures
        keys_unique(set_queue(m, k, q)),
        queue_of(set_queue(m, k, q), k) == q,
        forall|k2: KeyId| k2 != k ==> #[trigger] queue_of(set_queue(m, k, q), k2) == queue_of(m, k2),
{
    let r = set_queue(m, k, q);
    let i = if has_key(m, k) { key_index(m, k) } else { m.len() as int };
    assert(r[i].0 == k);
    assert(forall|a: int| 0 <= a < r.len() && a != i ==> r[a] == m[a]);
    assert forall|a: int, b: int| 0 <= a < r.len() && 0 <= b < r.len() && a != b implies (#[trigger] r[a]).0
        != (#[trigger] r[b]).0 by {
        if a != i && b != i {
        } else if a == i {
            assert(r[b] == m[b]);
        } else {
            assert(r[a] == m[a]);
        }
    }
    lemma_key_index(r, k, i);
    assert forall|k2: KeyId| k2 != k implies #[trigger] queue_of(r, k2) == queue_of(m, k2) by {
        if has_key(m, k2) {
            let j = key_index(m, k2);
            assert(j != i);
            lemma_key_index(r, k2, j);
        } else if has_key(r, k2) {
            let j = key_index(r, k2);
            assert(j != i);
            assert(r[j] == m[j]);
        }
    }
}

/// Removing the queue of a key leaves it none, and keeps keys unique.
pub proof fn lemma_remove_queue<T>(m: Seq<(KeyId, Seq<T>)>, k: KeyId)
    requires
        keys_unique(m),
    ensures
        keys_unique(remove_queue(m, k)),
        queue_of(remove_queue(m, k), k) == Seq::<T>::empty(),
{
    let r = remove_queue(m, k);
    if has_key(m, k) {
        let i = key_index(m, k);
        assert forall|a: int, b: int| 0 <= a < r.len() && 0 <= b < r.len() && a != b implies (#[trigger] r[a]).0
            != (#[trigger] r[b]).0 by {
            let a0 = if a < i { a } else { a + 1 };
            let b0 = if b < i { b } else { b + 1 };
            assert(r[a] == m[a0] && r[b] == m[b0]);
        }
        if has_key(r, k) {
            let j = key_index(r, k);
            let j0 = if j < i { j } else { j + 1 };
            assert(r[j] == m[j0]);
        }
    }
}

/// What handing a connection back does to its key's queue: nothing where it may not be
/// used again and holds no HTTP/2 queue to clear; else the queue is cleared for an
/// HTTP/2 connection to remove, and a connection that may be used again joins the back
/// of it, after the oldest one left where it held more than the limit. The queue thus
/// never holds more than one over the limit after a hand-back.
pub proof fn lemma_give_back_queue<T>(m: Seq<(KeyId, Seq<T>)>, k: KeyId, conn: T, reusable: bool, remove_h2: bool, max_idle: usize)
    requires
        keys_unique(m),
    ensures
        keys_unique(give_back_spec(m, k, conn, reusable, remove_h2, max_idle)),
        queue_of(give_back_spec(m, k, conn, reusable, remove_h2, max_idle), k) == if !reusable && !remove_h2 {
            queue_of(m, k)
        } else {
            let q = if remove_h2 {
                Seq::<T>::empty()
            } else {
                queue_of(m, k)
            };
            if reusable {
                (if q.len() > max_idle {
                    q.drop_first()
                } else {
                    q
                }).push(conn)
            } else {
                Seq::<T>::empty()
            }
        },
        queue_of(m, k).len() <= max_idle + 1 ==> queue_of(give_back_spec(m, k, conn, reusable, remove_h2, max_idle), k).len()
            <= max_idle + 1,
{
    if !reusable && !remove_h2 {
    } else {
        let m1 = if remove_h2 { remove_queue(m, k) } else { m };
        if remove_h2 {
            lemma_remove_queue(m, k);
        }
        if reusable {
            let q = queue_of(m1, k);
            let q1 = if q.len() > max_idle { q.drop_first() } else { q };
            lemma_set_queue(m1, k, q1.push(conn));
        }
    }
}

/// A connection handed back for use again under a key with no idle connection is the
/// one the pool hands out next for that key.
pub proof fn lemma_give_back_then_get<T>(m: Seq<(KeyId, Seq<T>)>, k: KeyId, conn: T, max_idle: usize)
    requires
        keys_unique(m),
        queue_of(m, k).len() == 0,
    ensures
        queue_of(give_back_spec(m, k, conn, true, false, max_idle), k) == seq![conn],
{
    lemma_give_back_queue(m, k, conn, true, false, max_idle);
    assert(Seq::<T>::empty().push(conn) =~= seq![conn]);
    assert(queue_of(m, k) =~= Seq::<T>::empty());
}

} // verus!
