//! An in-memory session store.
//!
//! A session opens with an expiry of `now + lease`; `expire_all` removes every session whose
//! expiry is at or before `now`. Time is an input: every operation takes `now`, an instant
//! counted in nanoseconds from an origin the caller picks, so a test passes a constant.
use std::collections::HashMap;
use vstd::prelude::*;

verus! {

broadcast use vstd::std_specs::hash::group_hash_axioms, vstd::seq_lib::group_seq_properties;

/// A store-generated session identifier.
#[derive(Copy, Clone, PartialEq, Eq, Hash, PartialOrd, Ord, Debug, Structural)]
pub struct SessionId(u64);

impl View for SessionId {
    type V = u64;

    closed spec fn view(&self) -> u64 {
        self.0
    }
}

impl SessionId {
    /// The raw identifier, for a log line or a wire message.
    pub fn get(self) -> (r: u64)
        ensures
            r == self@,
    {
        self.0
    }
}

/// Store configuration.
#[derive(Copy, Clone, Debug, PartialEq, Eq, Structural)]
pub struct Config {
    /// How long a session stays valid after it opens, in nanoseconds.
    pub lease: u64,
}

/// What a session holds: its id, when it opened and when it expires.
pub struct SessionView {
    pub id: u64,
    pub opened_at: u64,
    pub expires_at: u64,
}

/// A session known to the store.
#[derive(Clone, Debug, PartialEq, Eq, Structural)]
pub struct Session {
    id: SessionId,
    opened_at: u64,
    expires_at: u64,
}

impl View for Session {
    type V = SessionView;

    closed spec fn view(&self) -> SessionView {
        SessionView { id: self.id@, opened_at: self.opened_at, expires_at: self.expires_at }
    }
}

impl Session {
    /// The session's id.
    pub fn id(&self) -> (r: SessionId)
        ensures
            r@ == self@.id,
    {
        self.id
    }

    /// When the session opened.
    pub fn opened_at(&self) -> (r: u64)
        ensures
            r == self@.opened_at,
    {
        self.opened_at
    }

    /// When the session expires.
    pub fn expires_at(&self) -> (r: u64)
        ensures
            r == self@.expires_at,
    {
        self.expires_at
    }

    /// A session is expired from the instant its expiry is reached.
    pub fn is_expired(&self, now: u64) -> (r: bool)
        ensures
            r == (now >= self@.expires_at),
    {
        now >= self.expires_at
    }
}

/// What a store holds: the lease, the sessions by id, and the id the next session gets.
#[verifier::ext_equal]
pub struct StoreView {
    pub lease: u64,
    pub sessions: Map<u64, Session>,
    pub next_id: u64,
}

/// The ids of the sessions of `sessions` that are expired at `now`.
pub open spec fn expired_ids(sessions: Map<u64, Session>, now: u64) -> Set<u64> {
    Set::new(|k: u64| sessions.contains_key(k) && now >= sessions[k]@.expires_at)
}

/// The store.
#[derive(Debug)]
pub struct Store {
    config: Config,
    sessions: HashMap<u64, Session>,
    next_id: u64,
}

impl View for Store {
    type V = StoreView;

    closed spec fn view(&self) -> StoreView {
        StoreView { lease: self.config.lease, sessions: self.sessions@, next_id: self.next_id }
    }
}

impl Store {
    /// The store's internal consistency: each session is filed under its own id, every id
    /// is below the next one, and every session expires a lease after it opened.
    pub open spec fn wf(&self) -> bool {
        &&& self@.next_id >= 1
        &&& self@.sessions.dom().finite()
        &&& forall|k: u64| #[trigger]
            self@.sessions.contains_key(k) ==> {
                &&& self@.sessions[k]@.id == k
                &&& k < self@.next_id
                &&& self@.sessions[k]@.expires_at == self@.sessions[k]@.opened_at + self@.lease
            }
    }

    /// An empty store under `config`.
    pub fn new(config: Config) -> (s: Self)
        ensures
            s.wf(),
            s@.lease == config.lease,
            s@.sessions == Map::<u64, Session>::empty(),
            s@.next_id == 1,
    {
        Store { config, sessions: HashMap::new(), next_id: 1 }
    }

    /// Opens a session that expires at `now + lease`.
    pub fn open(&mut self, now: u64) -> (id: SessionId)
        requires
            old(self).wf(),
            now + old(self)@.lease <= u64::MAX,
            old(self)@.next_id < u64::MAX,
        ensures
            final(self).wf(),
            id@ == old(self)@.next_id,
            !old(self)@.sessions.contains_key(id@),
            final(self)@.lease == old(self)@.lease,
            final(self)@.next_id == old(self)@.next_id + 1,
            final(self)@.sessions.dom() == old(self)@.sessions.dom().insert(id@),
            forall|k: u64|
                old(self)@.sessions.contains_key(k) ==> #[trigger] final(self)@.sessions[k]
                    == old(self)@.sessions[k],
            final(self)@.sessions[id@]@ == (SessionView {
                id: id@,
                opened_at: now,
                expires_at: (now + old(self)@.lease) as u64,
            }),
    {
        let id = SessionId(self.next_id);
        self.next_id = self.next_id + 1;
        let session = Session { id, opened_at: now, expires_at: now + self.config.lease };
        self.sessions.insert(id.0, session);
        id
    }

    /// The session with id `id`, if the store holds it.
    pub fn get(&self, id: SessionId) -> (r: Option<&Session>)
        ensures
            r == if self@.sessions.contains_key(id@) {
                Some(&self@.sessions[id@])
            } else {
                None::<&Session>
            },
    {
        self.sessions.get(&id.0)
    }

    /// Removes every expired session and returns how many were removed.
    pub fn expire_all(&mut self, now: u64) -> (removed: usize)
        requires
            old(self).wf(),
        ensures
            final(self).wf(),
            final(self)@.lease == old(self)@.lease,
            final(self)@.next_id == old(self)@.next_id,
            final(self)@.sessions == old(self)@.sessions.remove_keys(
                expired_ids(old(self)@.sessions, now),
            ),
            removed == expired_ids(old(self)@.sessions, now).len(),
    {
        let ghost pre = self.sessions@;
        let ghost gone = expired_ids(pre, now);
        let mut expired: Vec<u64> = Vec::new();
        for k in it: self.sessions.keys()
            invariant
                pre == self.sessions@,
                gone == expired_ids(pre, now),
                it.seq().no_duplicates(),
                it.seq().len() == pre.dom().len(),
                it.seq().unref().to_set() == pre.dom(),
                expired@.no_duplicates(),
                forall|x: u64| #[trigger]
                    expired@.contains(x) ==> exists|j: int|
                        0 <= j < it.index() && *it.seq()[j] == x,
                forall|j: int|
                    0 <= j < it.index() ==> (expired@.contains(*#[trigger] it.seq()[j]) <==> gone.contains(*it.seq()[j])),
        {
            let ghost idx = it.index();
            proof {
                assert(it.seq().unref()[idx] == *it.seq()[idx]);
                assert(it.seq().unref().to_set().contains(*k));
            }
            let ghost expired_before = expired@;
            proof {
                if expired@.contains(*k) {
                    let j = choose|j: int| 0 <= j < idx && *it.seq()[j] == *k;
                    assert(it.seq()[j] == it.seq()[idx]);
                }
                assert(!expired_before.contains(*k));
            }
            let s = self.sessions.get(k).unwrap();
            assert(pre.contains_key(*k) && *s == pre[*k]);
            assert(gone.contains(*k) == (now >= s@.expires_at));
            if s.is_expired(now) {
                proof {
                    if expired@.contains(*k) {
                        let j = choose|j: int| 0 <= j < idx && *it.seq()[j] == *k;
                        assert(it.seq()[j] == it.seq()[idx]);
                    }
                }
                let ghost before = expired@;
                expired.push(*k);
                proof {
                    assert forall|x: u64| #[trigger] expired@.contains(x) implies exists|j: int|
                        0 <= j < idx + 1 && *it.seq()[j] == x by {
                        if x != *k {
                            assert(before.contains(x));
                        }
                    }
                    assert(expired@.contains(*k));
                }
            }
            proof {
                assert forall|j: int| 0 <= j < idx + 1 implies (expired@.contains(
                    *#[trigger] it.seq()[j],
                ) <==> gone.contains(*it.seq()[j])) by {
                    if j < idx {
                        assert(it.seq()[j] != it.seq()[idx]);
                        assert(expired@.contains(*it.seq()[j]) == expired_before.contains(
                            *it.seq()[j],
                        ));
                    }
                }
            }
        }
        let n = expired.len();
        for i in 0..n
            invariant
                n == expired@.len(),
                expired@.no_duplicates(),
                self.sessions@ == pre.remove_keys(expired@.take(i as int).to_set()),
                self.config == old(self).config,
                self.next_id == old(self).next_id,
        {
            let ghost before = self.sessions@;
            self.sessions.remove(&expired[i]);
            proof {
                assert(expired@.take(i + 1) =~= expired@.take(i as int).push(expired@[i as int]));
                expired@.take(i as int).lemma_push_to_set_commute(expired@[i as int]);
                assert(self.sessions@ =~= pre.remove_keys(expired@.take(i + 1).to_set()));
            }
        }
        proof {
            assert(expired@.take(n as int) == expired@);
            expired@.unique_seq_to_set();
            assert(expired@.to_set() =~= gone);
        }
        n
    }
}

/// After `expire_all(now)` no session that stays is expired at `now`, and every session that
/// went was.
pub proof fn law_expire_all_keeps_only_live_sessions(sessions: Map<u64, Session>, now: u64)
    ensures
        forall|k: u64| #[trigger]
            sessions.remove_keys(expired_ids(sessions, now)).contains_key(k) ==> now
                < sessions[k]@.expires_at,
        forall|k: u64|
            sessions.contains_key(k) && !sessions.remove_keys(
                expired_ids(sessions, now),
            ).contains_key(k) ==> now >= #[trigger] sessions[k]@.expires_at,
{
}

/// Once expired, a session stays expired: expiry is a point in time, not a span.
pub proof fn law_expiry_is_permanent(session: Session, now: u64, later: u64)
    requires
        now >= session@.expires_at,
        later >= now,
    ensures
        later >= session@.expires_at,
{
}

} // verus!
