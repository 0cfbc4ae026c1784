use vstd::arithmetic::div_mod::{lemma_fundamental_div_mod, lemma_mod_multiples_basic, lemma_mod_pos_bound};
use vstd::prelude::*;

verus! {

/// Interval, in milliseconds, between two sweeps for idle sessions. It is
/// fixed, whatever the idle timeout: a session leaves at most one interval
/// after it became idle.
pub const CLEANUP_INTERVAL_MS: u64 = 1000;

/// Largest payload of one UDP datagram over IPv4.
pub const MAX_DATAGRAM: usize = 65507;

/// Address of a UDP client: the IP address as a 128-bit number (an IPv4
/// address in its low 32 bits), whether it is IPv6, and the port.
#[derive(Clone, Copy, Debug, PartialEq, Eq, Structural, Hash)]
pub struct PeerAddr {
    pub v6: bool,
    pub ip: u128,
    pub port: u16,
}

/// One client's session: its address, the number that names it, the time of
/// its last datagram in milliseconds, and what the caller keeps for it (the
/// relay socket and the reply pump).
#[derive(Debug)]
pub struct Session<T> {
    pub client: PeerAddr,
    pub id: u64,
    pub last_seen_ms: u64,
    pub resource: T,
}

/// Mathematical state of a [`SessionTable`].
pub ghost struct TableView<T> {
    pub sessions: Seq<Session<T>>,
    pub next_id: u64,
}

/// The session has seen no datagram for longer than `timeout_ms` at `now_ms`.
pub open spec fn is_idle<T>(s: Session<T>, now_ms: u64, timeout_ms: u64) -> bool {
    now_ms > s.last_seen_ms && now_ms - s.last_seen_ms > timeout_ms
}

/// The sessions that a sweep at `now_ms` keeps, in their order.
pub open spec fn kept<T>(s: Seq<Session<T>>, now_ms: u64, timeout_ms: u64) -> Seq<Session<T>>
    decreases s.len(),
{
    if s.len() == 0 {
        s
    } else if is_idle(s.last(), now_ms, timeout_ms) {
        kept(s.drop_last(), now_ms, timeout_ms)
    } else {
        kept(s.drop_last(), now_ms, timeout_ms).push(s.last())
    }
}

/// What the caller kept for each session that a sweep at `now_ms` removes.
pub open spec fn evicted<T>(s: Seq<Session<T>>, now_ms: u64, timeout_ms: u64) -> Seq<T>
    decreases s.len(),
{
    if s.len() == 0 {
        seq![]
    } else if is_idle(s.last(), now_ms, timeout_ms) {
        evicted(s.drop_last(), now_ms, timeout_ms).push(s.last().resource)
    } else {
        evicted(s.drop_last(), now_ms, timeout_ms)
    }
}

/// At most one session per client; every session has its own number, below
/// the next number to be given out.
pub open spec fn table_wf<T>(v: TableView<T>) -> bool {
    &&& forall|i: int, j: int|
        0 <= i < v.sessions.len() && 0 <= j < v.sessions.len() && i != j
            ==> #[trigger] v.sessions[i].client != #[trigger] v.sessions[j].client
    &&& forall|i: int, j: int|
        0 <= i < v.sessions.len() && 0 <= j < v.sessions.len() && i != j
            ==> #[trigger] v.sessions[i].id != #[trigger] v.sessions[j].id
    &&& forall|i: int| 0 <= i < v.sessions.len() ==> #[trigger] v.sessions[i].id < v.next_id
}

/// The client has a session in the table.
pub open spec fn has_client<T>(s: Seq<Session<T>>, client: PeerAddr) -> bool {
    exists|i: int| 0 <= i < s.len() && #[trigger] s[i].client == client
}

proof fn lemma_kept_from<T>(s: Seq<Session<T>>, now_ms: u64, timeout_ms: u64)
    ensures
        kept(s, now_ms, timeout_ms).len() <= s.len(),
        forall|a: int|
            0 <= a < kept(s, now_ms, timeout_ms).len() ==> !is_idle(
                #[trigger] kept(s, now_ms, timeout_ms)[a],
                now_ms,
                timeout_ms,
            ),
        forall|a: int|
            0 <= a < kept(s, now_ms, timeout_ms).len() ==> exists|j: int|
                0 <= j < s.len() && #[trigger] kept(s, now_ms, timeout_ms)[a] == s[j],
    decreases s.len(),
{
    if s.len() > 0 {
        let d = s.drop_last();
        lemma_kept_from(d, now_ms, timeout_ms);
        let kd = kept(d, now_ms, timeout_ms);
        let ks = kept(s, now_ms, timeout_ms);
        assert forall|a: int| 0 <= a < ks.len() implies exists|j: int|
            0 <= j < s.len() && #[trigger] ks[a] == s[j] by {
            if a < kd.len() {
                let j = choose|j: int| 0 <= j < d.len() && #[trigger] kd[a] == d[j];
                assert(ks[a] == s[j]);
            } else {
                assert(ks[a] == s[s.len() - 1]);
            }
        }
    }
}

proof fn lemma_kept_wf<T>(v: TableView<T>, now_ms: u64, timeout_ms: u64)
    requires
        table_wf(v),
    ensures
        table_wf(TableView { sessions: kept(v.sessions, now_ms, timeout_ms), next_id: v.next_id }),
    decreases v.sessions.len(),
{
    let s = v.sessions;
    if s.len() > 0 {
        let d = s.drop_last();
        let dv = TableView { sessions: d, next_id: v.next_id };
        assert forall|i: int, j: int| 0 <= i < d.len() && 0 <= j < d.len() && i != j implies
            #[trigger] d[i].client != #[trigger] d[j].client by {
            assert(s[i].client != s[j].client);
        }
        assert forall|i: int, j: int| 0 <= i < d.len() && 0 <= j < d.len() && i != j implies
            #[trigger] d[i].id != #[trigger] d[j].id by {
            assert(s[i].id != s[j].id);
        }
        assert forall|i: int| 0 <= i < d.len() implies #[trigger] d[i].id < v.next_id by {
            assert(s[i].id < v.next_id);
        }
        lemma_kept_wf(dv, now_ms, timeout_ms);
        lemma_kept_from(d, now_ms, timeout_ms);
        let kd = kept(d, now_ms, timeout_ms);
        let ks = kept(s, now_ms, timeout_ms);
        if !is_idle(s.last(), now_ms, timeout_ms) {
            let n = s.len() - 1;
            assert forall|a: int| 0 <= a < kd.len() implies #[trigger] kd[a].client != s[n].client
                && kd[a].id != s[n].id by {
                let j = choose|j: int| 0 <= j < d.len() && #[trigger] kd[a] == d[j];
                assert(s[j] == d[j]);
            }
            assert forall|a: int, b: int| 0 <= a < ks.len() && 0 <= b < ks.len() && a != b implies
                #[trigger] ks[a].client != #[trigger] ks[b].client by {
                if a < kd.len() && b < kd.len() {
                    let kv = TableView { sessions: kd, next_id: v.next_id };
                    assert(table_wf(kv));
                    assert(kv.sessions[a].client != kv.sessions[b].client);
                } else if a < kd.len() {
                    assert(kd[a].client != s[n].client);
                } else {
                    assert(kd[b].client != s[n].client);
                }
            }
            assert forall|a: int, b: int| 0 <= a < ks.len() && 0 <= b < ks.len() && a != b implies
                #[trigger] ks[a].id != #[trigger] ks[b].id by {
                if a < kd.len() && b < kd.len() {
                    let kv = TableView { sessions: kd, next_id: v.next_id };
                    assert(table_wf(kv));
                    assert(kv.sessions[a].id != kv.sessions[b].id);
                } else if a < kd.len() {
                    assert(kd[a].id != s[n].id);
                } else {
                    assert(kd[b].id != s[n].id);
                }
            }
            assert forall|a: int| 0 <= a < ks.len() implies #[trigger] ks[a].id < v.next_id by {
                if a < kd.len() {
                    assert(kd[a].id < v.next_id);
                } else {
                    assert(s[n].id < v.next_id);
                }
            }
        }
    }
}

/// Sessions are per client: a datagram from a client has one session to go
/// through, and the replies that come back on a session's relay socket have
/// one client to go to, the one that the session was opened for.
pub proof fn one_session_per_client<T>(v: TableView<T>)
    requires
        table_wf(v),
    ensures
        forall|i: int, j: int|
            0 <= i < v.sessions.len() && 0 <= j < v.sessions.len() && (v.sessions[i].client
                == v.sessions[j].client || v.sessions[i].id == v.sessions[j].id) ==> i == j,
{
    assert forall|i: int, j: int|
        0 <= i < v.sessions.len() && 0 <= j < v.sessions.len() && (v.sessions[i].client
            == v.sessions[j].client || v.sessions[i].id == v.sessions[j].id) implies i == j by {
        if i != j {
            assert(v.sessions[i].client != v.sessions[j].client);
            assert(v.sessions[i].id != v.sessions[j].id);
        }
    }
}

/// A session idle for longer than the timeout is gone after the sweep, and
/// the session that a later datagram from the same client opens carries a
/// number that the stale one never had: the next number of the table, which
/// the sweep leaves as it was and which only grows.
pub proof fn idle_session_is_replaced<T>(v: TableView<T>, now_ms: u64, timeout_ms: u64, i: int)
    requires
        table_wf(v),
        0 <= i < v.sessions.len(),
        is_idle(v.sessions[i], now_ms, timeout_ms),
    ensures
        !has_client(kept(v.sessions, now_ms, timeout_ms), v.sessions[i].client),
        v.next_id != v.sessions[i].id,
        forall|j: int|
            0 <= j < v.sessions.len() && !is_idle(v.sessions[j], now_ms, timeout_ms) ==> kept(
                v.sessions,
                now_ms,
                timeout_ms,
            ).contains(#[trigger] v.sessions[j]),
{
    let s = v.sessions;
    let ks = kept(s, now_ms, timeout_ms);
    lemma_kept_from(s, now_ms, timeout_ms);
    if has_client(ks, s[i].client) {
        let a = choose|a: int| 0 <= a < ks.len() && #[trigger] ks[a].client == s[i].client;
        let j = choose|j: int| 0 <= j < s.len() && #[trigger] ks[a] == s[j];
        assert(!is_idle(ks[a], now_ms, timeout_ms));
        if j != i {
            assert(s[i].client != s[j].client);
        }
    }
    assert forall|j: int| 0 <= j < s.len() && !is_idle(s[j], now_ms, timeout_ms) implies ks.contains(
        #[trigger] s[j],
    ) by {
        lemma_kept_keeps(s, now_ms, timeout_ms, j);
    }
}

proof fn lemma_kept_keeps<T>(s: Seq<Session<T>>, now_ms: u64, timeout_ms: u64, j: int)
    requires
        0 <= j < s.len(),
        !is_idle(s[j], now_ms, timeout_ms),
    ensures
        kept(s, now_ms, timeout_ms).contains(s[j]),
    decreases s.len(),
{
    let d = s.drop_last();
    if j < s.len() - 1 {
        lemma_kept_keeps(d, now_ms, timeout_ms, j);
        let kd = kept(d, now_ms, timeout_ms);
        let a = choose|a: int| 0 <= a < kd.len() && kd[a] == d[j];
        if !is_idle(s.last(), now_ms, timeout_ms) {
            assert(kept(s, now_ms, timeout_ms)[a] == s[j]);
        }
    } else {
        assert(kept(s, now_ms, timeout_ms).last() == s[j]);
    }
}

/// The first multiple of `period` after `threshold`: when sweeps run every
/// `period` from time zero, the first sweep that comes after `threshold`.
pub open spec fn first_sweep_after(threshold: int, period: int) -> int {
    (threshold / period + 1) * period
}

/// Idle eviction happens on time: a sweep removes a session exactly when more
/// than the timeout has passed since its last datagram, so no sweep up to
/// that moment removes it; and with sweeps every `period_ms` the first sweep
/// after that moment comes at most one period later.
pub proof fn idle_eviction_timing<T>(s: Session<T>, timeout_ms: u64, period_ms: u64, now_ms: u64)
    requires
        period_ms > 0,
    ensures
        is_idle(s, now_ms, timeout_ms) <==> now_ms > s.last_seen_ms + timeout_ms,
        s.last_seen_ms + timeout_ms < first_sweep_after(s.last_seen_ms + timeout_ms, period_ms as int)
            <= s.last_seen_ms + timeout_ms + period_ms,
        first_sweep_after(s.last_seen_ms + timeout_ms, period_ms as int) % (period_ms as int) == 0,
{
    let x: int = s.last_seen_ms + timeout_ms;
    let p: int = period_ms as int;
    lemma_fundamental_div_mod(x, p);
    lemma_mod_pos_bound(x, p);
    let q = x / p;
    assert((q + 1) * p == q * p + p) by (nonlinear_arith);
    assert(p * q == q * p) by (nonlinear_arith);
    lemma_mod_multiples_basic(q + 1, p);
}

/// The table after a datagram from `client` at `now_ms`: the client's
/// session has its time refreshed, or, when it has none, a session is opened
/// for it with the next number and `res`.
pub open spec fn receive<T>(v: TableView<T>, client: PeerAddr, now_ms: u64, res: T) -> TableView<T> {
    if has_client(v.sessions, client) {
        let i = choose|i: int| 0 <= i < v.sessions.len() && #[trigger] v.sessions[i].client == client;
        TableView {
            sessions: v.sessions.update(i, Session { last_seen_ms: now_ms, ..v.sessions[i] }),
            next_id: v.next_id,
        }
    } else {
        TableView {
            sessions: v.sessions.push(Session { client, id: v.next_id, last_seen_ms: now_ms, resource: res }),
            next_id: (v.next_id + 1) as u64,
        }
    }
}

/// The table after the datagrams `(client, time)` arrived in order.
pub open spec fn receive_all<T>(v: TableView<T>, datagrams: Seq<(PeerAddr, u64)>, res: T) -> TableView<T>
    decreases datagrams.len(),
{
    if datagrams.len() == 0 {
        v
    } else {
        receive(receive_all(v, datagrams.drop_last(), res), datagrams.last().0, datagrams.last().1, res)
    }
}

/// An empty table that has given out no number.
pub open spec fn empty_table<T>() -> TableView<T> {
    TableView { sessions: Seq::empty(), next_id: 0 }
}

proof fn lemma_receive_all<T>(datagrams: Seq<(PeerAddr, u64)>, res: T)
    requires
        datagrams.len() < u64::MAX,
    ensures
        ({
            let v = receive_all(empty_table::<T>(), datagrams, res);
            &&& v.next_id == v.sessions.len() <= datagrams.len()
            &&& forall|i: int| 0 <= i < v.sessions.len() ==> #[trigger] v.sessions[i].id == i
            &&& forall|i: int, j: int|
                0 <= i < v.sessions.len() && 0 <= j < v.sessions.len() && i != j
                    ==> #[trigger] v.sessions[i].client != #[trigger] v.sessions[j].client
            &&& forall|c: PeerAddr|
                has_client(v.sessions, c) <==> exists|k: int|
                    0 <= k < datagrams.len() && #[trigger] datagrams[k].0 == c
        }),
    decreases datagrams.len(),
{
    if datagrams.len() > 0 {
        let d = datagrams.drop_last();
        lemma_receive_all(d, res);
        let u = receive_all(empty_table::<T>(), d, res);
        let c = datagrams.last().0;
        let now = datagrams.last().1;
        let v = receive_all(empty_table::<T>(), datagrams, res);
        assert(v == receive(u, c, now, res));
        if has_client(u.sessions, c) {
            let i = choose|i: int| 0 <= i < u.sessions.len() && #[trigger] u.sessions[i].client == c;
            assert(v.sessions == u.sessions.update(i, Session { last_seen_ms: now, ..u.sessions[i] }));
            assert forall|a: int| 0 <= a < v.sessions.len() implies #[trigger] v.sessions[a].id == a by {
                assert(u.sessions[a].id == a);
            }
            assert forall|a: int, b: int|
                0 <= a < v.sessions.len() && 0 <= b < v.sessions.len() && a != b implies #[trigger] v.sessions[a].client
                != #[trigger] v.sessions[b].client by {
                assert(u.sessions[a].client != u.sessions[b].client);
            }
            assert forall|e: PeerAddr| has_client(v.sessions, e) <==> exists|k: int|
                0 <= k < datagrams.len() && #[trigger] datagrams[k].0 == e by {
                if has_client(v.sessions, e) {
                    let a = choose|a: int| 0 <= a < v.sessions.len() && #[trigger] v.sessions[a].client == e;
                    assert(u.sessions[a].client == e);
                    assert(has_client(u.sessions, e));
                    let k = choose|k: int| 0 <= k < d.len() && #[trigger] d[k].0 == e;
                    assert(d[k] == datagrams[k]);
                    assert(datagrams[k].0 == e);
                }
                if exists|k: int| 0 <= k < datagrams.len() && #[trigger] datagrams[k].0 == e {
                    let k = choose|k: int| 0 <= k < datagrams.len() && #[trigger] datagrams[k].0 == e;
                    if k < d.len() {
                        assert(d[k] == datagrams[k]);
                        assert(d[k].0 == e);
                        assert(exists|k2: int| 0 <= k2 < d.len() && #[trigger] d[k2].0 == e);
                        assert(has_client(u.sessions, e));
                        let a = choose|a: int| 0 <= a < u.sessions.len() && #[trigger] u.sessions[a].client == e;
                        assert(v.sessions[a].client == e);
                    } else {
                        assert(v.sessions[i].client == e);
                    }
                }
            }
        } else {
            let n = u.sessions.len() as int;
            assert(v.sessions == u.sessions.push(Session { client: c, id: u.next_id, last_seen_ms: now, resource: res }));
            assert forall|a: int| 0 <= a < v.sessions.len() implies #[trigger] v.sessions[a].id == a by {
                if a < n {
                    assert(u.sessions[a].id == a);
                }
            }
            assert forall|a: int, b: int|
                0 <= a < v.sessions.len() && 0 <= b < v.sessions.len() && a != b implies #[trigger] v.sessions[a].client
                != #[trigger] v.sessions[b].client by {
                if a < n && b < n {
                    assert(u.sessions[a].client != u.sessions[b].client);
                } else if a < n {
                    assert(u.sessions[a].client != c);
                } else {
                    assert(u.sessions[b].client != c);
                }
            }
            assert forall|e: PeerAddr| has_client(v.sessions, e) <==> exists|k: int|
                0 <= k < datagrams.len() && #[trigger] datagrams[k].0 == e by {
                if has_client(v.sessions, e) {
                    let a = choose|a: int| 0 <= a < v.sessions.len() && #[trigger] v.sessions[a].client == e;
                    if a < n {
                        assert(u.sessions[a].client == e);
                        assert(has_client(u.sessions, e));
                        let k = choose|k: int| 0 <= k < d.len() && #[trigger] d[k].0 == e;
                        assert(d[k] == datagrams[k]);
                        assert(datagrams[k].0 == e);
                    } else {
                        assert(datagrams[datagrams.len() - 1].0 == e);
                    }
                }
                if exists|k: int| 0 <= k < datagrams.len() && #[trigger] datagrams[k].0 == e {
                    let k = choose|k: int| 0 <= k < datagrams.len() && #[trigger] datagrams[k].0 == e;
                    if k < d.len() {
                        assert(d[k] == datagrams[k]);
                        assert(d[k].0 == e);
                        assert(exists|k2: int| 0 <= k2 < d.len() && #[trigger] d[k2].0 == e);
                        assert(has_client(u.sessions, e));
                        let a = choose|a: int| 0 <= a < u.sessions.len() && #[trigger] u.sessions[a].client == e;
                        assert(v.sessions[a].client == e);
                    } else {
                        assert(v.sessions[n].client == e);
                    }
                }
            }
        }
    }
}

/// Whatever datagrams arrive from whatever clients, starting from an empty
/// table: every client that sent has exactly one session, no other client
/// has one, each session has its own number (its own relay socket and
/// pump), and sessions were opened once per distinct client, which the
/// count of numbers given out shows.
pub proof fn datagrams_get_one_session_per_client<T>(datagrams: Seq<(PeerAddr, u64)>, res: T)
    requires
        datagrams.len() < u64::MAX,
    ensures
        ({
            let v = receive_all(empty_table::<T>(), datagrams, res);
            &&& table_wf(v)
            &&& v.next_id == v.sessions.len()
            &&& forall|c: PeerAddr|
                has_client(v.sessions, c) <==> exists|k: int|
                    0 <= k < datagrams.len() && #[trigger] datagrams[k].0 == c
        }),
{
    lemma_receive_all(datagrams, res);
    let v = receive_all(empty_table::<T>(), datagrams, res);
    assert forall|i: int, j: int|
        0 <= i < v.sessions.len() && 0 <= j < v.sessions.len() && i != j implies #[trigger] v.sessions[i].id
        != #[trigger] v.sessions[j].id by {
        assert(v.sessions[i].id == i);
        assert(v.sessions[j].id == j);
    }
    assert forall|i: int| 0 <= i < v.sessions.len() implies #[trigger] v.sessions[i].id < v.next_id by {
        assert(v.sessions[i].id == i);
    }
}

/// The table of a UDP relay: one session per client address, each named by a
/// number that is never given out twice.
pub struct SessionTable<T> {
    sessions: Vec<Session<T>>,
    next_id: u64,
}

impl<T> View for SessionTable<T> {
    type V = TableView<T>;

    closed spec fn view(&self) -> TableView<T> {
        TableView { sessions: self.sessions@, next_id: self.next_id }
    }
}

impl<T> SessionTable<T> {
    pub open spec fn wf(&self) -> bool {
        table_wf(self@)
    }

    /// An empty table.
    pub fn new() -> (r: SessionTable<T>)
        ensures
            r.wf(),
            r@.sessions.len() == 0,
            r@.next_id == 0,
    {
        SessionTable { sessions: Vec::new(), next_id: 0 }
    }

    /// Number of live sessions.
    pub fn len(&self) -> (r: usize)
        ensures
            r == self@.sessions.len(),
    {
        self.sessions.len()
    }

    /// Position of the client's session, if it has one.
    pub fn find(&self, client: PeerAddr) -> (r: Option<usize>)
        ensures
            match r {
                Some(i) => i < self@.sessions.len() && self@.sessions[i as int].client == client,
                None => !has_client(self@.sessions, client),
            },
    {
        let mut i: usize = 0;
        while i < self.sessions.len()
            invariant
                i <= self.sessions@.len(),
                forall|j: int| 0 <= j < i ==> self.sessions@[j].client != client,
            decreases self.sessions@.len() - i,
        {
            if self.sessions[i].client == client {
                return Some(i);
            }
            i = i + 1;
        }
        None
    }

    /// What the caller keeps for the client's session, if it has one.
    pub fn get(&self, client: PeerAddr) -> (r: Option<&T>)
        ensures
            match r {
                Some(res) => exists|i: int|
                    0 <= i < self@.sessions.len() && #[trigger] self@.sessions[i].client == client
                        && self@.sessions[i].resource == *res,
                None => !has_client(self@.sessions, client),
            },
    {
        match self.find(client) {
            Some(i) => Some(&self.sessions[i].resource),
            None => None,
        }
    }

    /// Whether the client has a session.
    pub fn contains(&self, client: PeerAddr) -> (r: bool)
        ensures
            r == has_client(self@.sessions, client),
    {
        self.find(client).is_some()
    }

    /// Records a datagram from `client` at `now_ms`. When the client has a
    /// session its time is refreshed and its number returned; otherwise the
    /// table is left as it is and the caller opens a session.
    pub fn touch(&mut self, client: PeerAddr, now_ms: u64) -> (r: Option<u64>)
        requires
            old(self).wf(),
        ensures
            final(self).wf(),
            final(self)@.next_id == old(self)@.next_id,
            match r {
                Some(id) => exists|i: int|
                    0 <= i < old(self)@.sessions.len() && #[trigger] old(self)@.sessions[i].client
                        == client && old(self)@.sessions[i].id == id && final(self)@.sessions
                        == old(self)@.sessions.update(
                        i,
                        Session { last_seen_ms: now_ms, ..old(self)@.sessions[i] },
                    ),
                None => !has_client(old(self)@.sessions, client) && final(self)@ == old(self)@,
            },
            r is Some ==> forall|res: T| #[trigger] receive(old(self)@, client, now_ms, res) == final(self)@,
    {
        match self.find(client) {
            Some(i) => {
                let ghost before = self@.sessions;
                proof {
                    let j = choose|j: int| 0 <= j < before.len() && #[trigger] before[j].client == client;
                    if j != i {
                        assert(before[j].client != before[i as int].client);
                    }
                }
                self.sessions[i].last_seen_ms = now_ms;
                let id = self.sessions[i].id;
                proof {
                    assert(self@.sessions =~= before.update(
                        i as int,
                        Session { last_seen_ms: now_ms, ..before[i as int] },
                    ));
                    assert(table_wf(self@)) by {
                        assert forall|a: int, b: int|
                            0 <= a < self@.sessions.len() && 0 <= b < self@.sessions.len() && a
                                != b implies #[trigger] self@.sessions[a].client
                            != #[trigger] self@.sessions[b].client by {
                            assert(before[a].client != before[b].client);
                        }
                        assert forall|a: int, b: int|
                            0 <= a < self@.sessions.len() && 0 <= b < self@.sessions.len() && a
                                != b implies #[trigger] self@.sessions[a].id
                            != #[trigger] self@.sessions[b].id by {
                            assert(before[a].id != before[b].id);
                        }
                        assert forall|a: int|
                            0 <= a < self@.sessions.len() implies #[trigger] self@.sessions[a].id
                            < self@.next_id by {
                            assert(before[a].id < self@.next_id);
                        }
                    }
                }
                Some(id)
            },
            None => None,
        }
    }

    /// Whether a session can still be opened: numbers are not exhausted.
    pub fn can_open(&self) -> (r: bool)
        ensures
            r == (self@.next_id < u64::MAX),
    {
        self.next_id < u64::MAX
    }

    /// Opens the session of a client that has none, seen at `now_ms`, and
    /// returns its number: one that no session ever had.
    pub fn open(&mut self, client: PeerAddr, now_ms: u64, resource: T) -> (id: u64)
        requires
            old(self).wf(),
            !has_client(old(self)@.sessions, client),
            old(self)@.next_id < u64::MAX,
        ensures
            final(self).wf(),
            id == old(self)@.next_id,
            final(self)@.next_id == old(self)@.next_id + 1,
            final(self)@.sessions == old(self)@.sessions.push(
                Session { client, id, last_seen_ms: now_ms, resource },
            ),
            final(self)@ == receive(old(self)@, client, now_ms, resource),
    {
        let id = self.next_id;
        self.sessions.push(Session { client, id, last_seen_ms: now_ms, resource });
        self.next_id = self.next_id + 1;
        id
    }

    /// Closes the client's session, if it has one, and hands back what the
    /// caller kept for it.
    pub fn remove(&mut self, client: PeerAddr) -> (r: Option<T>)
        requires
            old(self).wf(),
        ensures
            final(self).wf(),
            final(self)@.next_id == old(self)@.next_id,
            !has_client(final(self)@.sessions, client),
            match r {
                Some(res) => exists|i: int|
                    0 <= i < old(self)@.sessions.len() && #[trigger] old(self)@.sessions[i].client
                        == client && old(self)@.sessions[i].resource == res && final(self)@.sessions
                        == old(self)@.sessions.remove(i),
                None => !has_client(old(self)@.sessions, client) && final(self)@ == old(self)@,
            },
    {
        match self.find(client) {
            Some(i) => {
                let ghost before = self@.sessions;
                let session = self.sessions.remove(i);
                proof {
                    let after = self@.sessions;
                    assert forall|a: int| 0 <= a < after.len() implies #[trigger] after[a].client
                        != client by {
                        if a < i {
                            assert(after[a] == before[a]);
                        } else {
                            assert(after[a] == before[a + 1]);
                        }
                    }
                    assert forall|a: int, b: int|
                        0 <= a < after.len() && 0 <= b < after.len() && a != b implies #[trigger] after[a].client
                        != #[trigger] after[b].client && after[a].id != after[b].id by {
                        let a2 = if a < i { a } else { a + 1 };
                        let b2 = if b < i { b } else { b + 1 };
                        assert(after[a] == before[a2]);
                        assert(after[b] == before[b2]);
                        assert(before[a2].client != before[b2].client);
                        assert(before[a2].id != before[b2].id);
                    }
                    assert forall|a: int| 0 <= a < after.len() implies #[trigger] after[a].id
                        < self@.next_id by {
                        let a2 = if a < i { a } else { a + 1 };
                        assert(after[a] == before[a2]);
                    }
                }
                Some(session.resource)
            },
            None => None,
        }
    }

    /// Sweeps the table at `now_ms`: removes every session idle for longer
    /// than `timeout_ms` and hands back what the caller kept for each, in
    /// table order, so that their pumps can be cancelled.
    pub fn prune(&mut self, now_ms: u64, timeout_ms: u64) -> (gone: Vec<T>)
        requires
            old(self).wf(),
        ensures
            final(self).wf(),
            final(self)@.next_id == old(self)@.next_id,
            final(self)@.sessions == kept(old(self)@.sessions, now_ms, timeout_ms),
            gone@ == evicted(old(self)@.sessions, now_ms, timeout_ms),
    {
        let ghost start = self@.sessions;
        let ghost mut k: int = 0;
        let mut gone: Vec<T> = Vec::new();
        let mut i: usize = 0;
        while i < self.sessions.len()
            invariant
                0 <= k <= start.len(),
                self.next_id == old(self).next_id,
                i == kept(start.subrange(0, k), now_ms, timeout_ms).len(),
                self.sessions@ == kept(start.subrange(0, k), now_ms, timeout_ms) + start.subrange(
                    k,
                    start.len() as int,
                ),
                gone@ == evicted(start.subrange(0, k), now_ms, timeout_ms),
            decreases start.len() - k,
        {
            let ghost pre = start.subrange(0, k);
            let ghost next = start.subrange(0, k + 1);
            assert(next.drop_last() =~= pre);
            assert(next.last() == start[k]);
            assert(self.sessions@[i as int] == start[k]);
            let last_seen = self.sessions[i].last_seen_ms;
            if now_ms > last_seen && now_ms - last_seen > timeout_ms {
                let session = self.sessions.remove(i);
                gone.push(session.resource);
            } else {
                i = i + 1;
            }
            proof {
                k = k + 1;
                assert(self.sessions@ =~= kept(start.subrange(0, k), now_ms, timeout_ms)
                    + start.subrange(k, start.len() as int));
            }
        }
        proof {
            assert(k == start.len()) by {
                if k < start.len() {
                    assert(self.sessions@.len() > i);
                }
            }
            assert(start.subrange(0, k) =~= start);
            lemma_kept_wf(TableView { sessions: start, next_id: self.next_id }, now_ms, timeout_ms);
            assert(self@.sessions =~= kept(start, now_ms, timeout_ms));
        }
        gone
    }

    /// Empties the table when the relay stops and hands back what the caller
    /// kept for every session, in table order.
    pub fn drain(&mut self) -> (gone: Vec<T>)
        requires
            old(self).wf(),
        ensures
            final(self).wf(),
            final(self)@.next_id == old(self)@.next_id,
            final(self)@.sessions.len() == 0,
            gone@ == old(self)@.sessions.map_values(|s: Session<T>| s.resource),
    {
        let ghost start = self@.sessions;
        let mut gone: Vec<T> = Vec::new();
        while self.sessions.len() > 0
            invariant
                self.next_id == old(self).next_id,
                gone@.len() + self.sessions@.len() == start.len(),
                self.sessions@ == start.subrange(gone@.len() as int, start.len() as int),
                gone@ == start.subrange(0, gone@.len() as int).map_values(|s: Session<T>| s.resource),
            decreases self.sessions@.len(),
        {
            let ghost n = gone@.len() as int;
            let session = self.sessions.remove(0);
            assert(session == start[n]);
            gone.push(session.resource);
            assert(start.subrange(0, n + 1).map_values(|s: Session<T>| s.resource) =~= start.subrange(
                0,
                n,
            ).map_values(|s: Session<T>| s.resource).push(start[n].resource));
            assert(self.sessions@ =~= start.subrange(n + 1, start.len() as int));
        }
        assert(start.subrange(0, start.len() as int) =~= start);
        gone
    }
}

} // verus!
