//! Stream registry: the mapping from stream name to its existence and its
//! active transport session. One stream holds at most one session at a time;
//! replacing it removes the prior entry. The registry is the only state
//! shared between connection workers, which must serialize access to it
//! (the surrounding server holds it behind a lock).
use vstd::prelude::*;
use crate::bytes::{bytes_eq, subvec};
use crate::codec::RtspError;

verus! {

/// Per-stream delivery state: `Ready` after SETUP, `Playing` after PLAY.
#[derive(Clone, Copy, Debug, PartialEq, Eq, Structural)]
pub enum SessionState {
    Ready,
    Playing,
}

/// A negotiated transport session: the client's RTP port, the delivery
/// state, and the session identifier echoed to the client.
#[derive(Clone, Copy, Debug, PartialEq, Eq, Structural)]
pub struct SessionRecord {
    pub port: u16,
    pub state: SessionState,
    pub id: u32,
}

/// All session keys are pairwise distinct: no stream name ever has two
/// sessions visible at once.
pub open spec fn keys_distinct(s: Seq<(Vec<u8>, SessionRecord)>) -> bool {
    forall|i: int, j: int| 0 <= i < j < s.len() ==> s[i].0@ != s[j].0@
}

/// Session stored under key `k`, later entries winning.
pub open spec fn spec_get(s: Seq<(Vec<u8>, SessionRecord)>, k: Seq<u8>) -> Option<SessionRecord>
    decreases s.len(),
{
    if s.len() == 0 {
        None
    } else if s.last().0@ == k {
        Some(s.last().1)
    } else {
        spec_get(s.drop_last(), k)
    }
}

/// A key is stored if and only if some entry carries it.
pub proof fn lemma_get_absent(s: Seq<(Vec<u8>, SessionRecord)>, k: Seq<u8>)
    ensures
        (spec_get(s, k) is None) <==> (forall|j: int| 0 <= j < s.len() ==> s[j].0@ != k),
    decreases s.len(),
{
    if s.len() > 0 {
        lemma_get_absent(s.drop_last(), k);
        assert(forall|j: int| 0 <= j < s.len() - 1 ==> s.drop_last()[j] == s[j]);
    }
}

/// Removing the unique entry holding `rk` clears `rk` and leaves every
/// other key unchanged.
pub proof fn lemma_get_remove(s: Seq<(Vec<u8>, SessionRecord)>, i: int, k: Seq<u8>)
    requires
        keys_distinct(s),
        0 <= i < s.len(),
    ensures
        spec_get(s.remove(i), k) == (if k == s[i].0@ {
            None::<SessionRecord>
        } else {
            spec_get(s, k)
        }),
    decreases s.len(),
{
    if i == s.len() - 1 {
        assert(s.remove(i) =~= s.drop_last());
        if k == s[i].0@ {
            lemma_get_absent(s.drop_last(), k);
        }
    } else {
        assert(s.remove(i).drop_last() =~= s.drop_last().remove(i));
        assert(s.remove(i).last() == s.last());
        lemma_get_remove(s.drop_last(), i, k);
    }
}

/// Concurrency-safe mapping from stream name to existence and active
/// session. Its operations are read-modify-write atomic with respect to one
/// another when the owner serializes calls, as the server's lock does.
pub struct Registry {
    pub streams: Vec<Vec<u8>>,
    pub sessions: Vec<(Vec<u8>, SessionRecord)>,
}

impl Registry {
    /// Well-formed: no stream name has two sessions installed.
    pub open spec fn wf(self) -> bool {
        keys_distinct(self.sessions@)
    }

    /// The stream name is registered.
    pub open spec fn has_stream(self, k: Seq<u8>) -> bool {
        exists|i: int| 0 <= i < self.streams@.len() && self.streams@[i]@ == k
    }

    /// The active session for a stream name, if any.
    pub open spec fn session(self, k: Seq<u8>) -> Option<SessionRecord> {
        spec_get(self.sessions@, k)
    }

    pub fn new() -> (r: Registry)
        ensures
            r.wf(),
            forall|k: Seq<u8>| !r.has_stream(k),
            forall|k: Seq<u8>| r.session(k) is None,
    {
        Registry { streams: Vec::new(), sessions: Vec::new() }
    }

    pub fn exists_stream(&self, name: &[u8]) -> (r: bool)
        ensures
            r == self.has_stream(name@),
    {
        let n = self.streams.len();
        let mut i: usize = 0;
        while i < n
            invariant
                0 <= i <= n,
                n == self.streams@.len(),
                forall|j: int| 0 <= j < i ==> self.streams@[j]@ != name@,
            decreases n - i,
        {
            if bytes_eq(self.streams[i].as_slice(), name) {
                return true;
            }
            i = i + 1;
        }
        false
    }

    /// Registers a stream name with no active session. Idempotent: a name
    /// already present is not duplicated.
    pub fn add_stream(&mut self, name: &[u8])
        requires
            old(self).wf(),
        ensures
            final(self).wf(),
            final(self).has_stream(name@),
            forall|k: Seq<u8>|
                final(self).has_stream(k) == (old(self).has_stream(k) || k == name@),
            final(self).sessions@ == old(self).sessions@,
    {
        if !self.exists_stream(name) {
            let owned = subvec(name, 0, name.len());
            proof {
                assert(owned@ =~= name@);
            }
            self.streams.push(owned);
            proof {
                let ns = self.streams@;
                let os = old(self).streams@;
                assert(ns[ns.len() - 1]@ == name@);
                assert forall|k: Seq<u8>|
                    final(self).has_stream(k) == (old(self).has_stream(k) || k == name@) by {
                    if k == name@ {
                        assert(final(self).has_stream(k));
                    } else {
                        if final(self).has_stream(k) {
                            let i = choose|i: int|
                                0 <= i < ns.len() && ns[i]@ == k;
                            assert(os[i]@ == k);
                        }
                        if old(self).has_stream(k) {
                            let i = choose|i: int|
                                0 <= i < os.len() && os[i]@ == k;
                            assert(ns[i]@ == k);
                        }
                    }
                }
            }
        }
    }

    fn find_session_index(&self, name: &[u8]) -> (r: Option<usize>)
        ensures
            (match r {
                Some(i) => i < self.sessions@.len() && self.sessions@[i as int].0@ == name@,
                None => forall|j: int|
                    0 <= j < self.sessions@.len() ==> self.sessions@[j].0@ != name@,
            }),
    {
        let n = self.sessions.len();
        let mut i: usize = 0;
        while i < n
            invariant
                0 <= i <= n,
                n == self.sessions@.len(),
                forall|j: int| 0 <= j < i ==> self.sessions@[j].0@ != name@,
            decreases n - i,
        {
            if bytes_eq(self.sessions[i].0.as_slice(), name) {
                return Some(i);
            }
            i = i + 1;
        }
        None
    }

    pub fn get_session(&self, name: &[u8]) -> (r: Option<SessionRecord>)
        ensures
            r == self.session(name@),
    {
        let mut i = self.sessions.len();
        proof {
            assert(self.sessions@.take(self.sessions@.len() as int) =~= self.sessions@);
        }
        loop
            invariant
                0 <= i <= self.sessions@.len(),
                self.session(name@) == spec_get(self.sessions@.take(i as int), name@),
            ensures
                self.session(name@) is None,
            decreases i,
        {
            if i == 0 {
                break;
            }
            if bytes_eq(self.sessions[i - 1].0.as_slice(), name) {
                proof {
                    assert(self.sessions@.take(i as int).last() == self.sessions@[i - 1]);
                }
                return Some(self.sessions[i - 1].1);
            }
            proof {
                assert(self.sessions@.take(i as int).drop_last() =~= self.sessions@.take(i - 1));
            }
            i = i - 1;
        }
        None
    }

    /// Clears the session for a stream name, if one is installed. Every
    /// other stream's session is untouched.
    pub fn remove_session(&mut self, name: &[u8])
        requires
            old(self).wf(),
        ensures
            final(self).wf(),
            final(self).session(name@) is None,
            forall|k: Seq<u8>| k != name@ ==> final(self).session(k) == old(self).session(k),
            final(self).streams@ == old(self).streams@,
    {
        match self.find_session_index(name) {
            None => {
                proof {
                    lemma_get_absent(self.sessions@, name@);
                }
            },
            Some(i) => {
                self.sessions.remove(i);
                proof {
                    let os = old(self).sessions@;
                    assert(self.sessions@ =~= os.remove(i as int));
                    assert forall|k: Seq<u8>| #[trigger] spec_get(self.sessions@, k) == (if k
                        == os[i as int].0@ {
                        None::<SessionRecord>
                    } else {
                        spec_get(os, k)
                    }) by {
                        lemma_get_remove(os, i as int, k);
                    }
                }
            },
        }
    }

    /// Installs or atomically replaces the session for a registered stream
    /// name; fails with `UnknownStream` when the name is not registered.
    /// After success exactly the named stream's session changed.
    pub fn set_session(&mut self, name: &[u8], rec: SessionRecord) -> (r: Result<(), RtspError>)
        requires
            old(self).wf(),
        ensures
            final(self).wf(),
            final(self).streams@ == old(self).streams@,
            (match r {
                Ok(_) => {
                    &&& old(self).has_stream(name@)
                    &&& final(self).session(name@) == Some(rec)
                    &&& forall|k: Seq<u8>|
                        k != name@ ==> final(self).session(k) == old(self).session(k)
                },
                Err(e) => {
                    &&& e == RtspError::UnknownStream
                    &&& !old(self).has_stream(name@)
                    &&& final(self).sessions@ == old(self).sessions@
                },
            }),
    {
        if !self.exists_stream(name) {
            return Err(RtspError::UnknownStream);
        }
        self.remove_session(name);
        let owned = subvec(name, 0, name.len());
        proof {
            assert(owned@ =~= name@);
        }
        let ghost mid = self.sessions@;
        self.sessions.push((owned, rec));
        proof {
            assert(self.sessions@.drop_last() =~= mid);
            assert(self.sessions@.last() == (owned, rec));
            lemma_get_absent(mid, name@);
            assert forall|i: int, j: int|
                0 <= i < j < self.sessions@.len() implies self.sessions@[i].0@
                != self.sessions@[j].0@ by {
                if j == self.sessions@.len() - 1 {
                    assert(self.sessions@[i] == mid[i]);
                }
            }
        }
        Ok(())
    }

    /// Whether a pushed frame would be accepted for this stream: a session
    /// must be installed and playing.
    pub fn push_accepts(&self, name: &[u8]) -> (r: bool)
        ensures
            r == (self.session(name@) is Some && self.session(name@)->Some_0.state
                == SessionState::Playing),
    {
        match self.get_session(name) {
            Some(rec) => match rec.state {
                SessionState::Playing => true,
                SessionState::Ready => false,
            },
            None => false,
        }
    }
}

/// Predicate a shared registry's lock maintains: well-formedness, so every
/// reader observes a registry with at most one session per stream.
pub struct WfPred;

impl vstd::rwlock::RwLockPredicate<Registry> for WfPred {
    open spec fn inv(self, v: Registry) -> bool {
        v.wf()
    }
}

/// The registry behind a reader-writer lock, shared by the connection
/// workers. Each operation acquires the lock for the span of one
/// read-modify-write, so `set_session` is observed atomically by
/// `exists_stream`, `get_session` and `push_accepts`, and no reader ever
/// sees a half-installed session: every value the lock hands out is
/// well formed.
pub struct SharedRegistry {
    lock: vstd::rwlock::RwLock<Registry, WfPred>,
}

impl SharedRegistry {
    pub fn new() -> SharedRegistry {
        SharedRegistry { lock: vstd::rwlock::RwLock::new(Registry::new(), Ghost(WfPred)) }
    }

    pub fn add_stream(&self, name: &[u8]) {
        let (mut reg, handle) = self.lock.acquire_write();
        reg.add_stream(name);
        handle.release_write(reg);
    }

    pub fn exists_stream(&self, name: &[u8]) -> bool {
        let handle = self.lock.acquire_read();
        let r = handle.borrow().exists_stream(name);
        handle.release_read();
        r
    }

    pub fn get_session(&self, name: &[u8]) -> Option<SessionRecord> {
        let handle = self.lock.acquire_read();
        let r = handle.borrow().get_session(name);
        handle.release_read();
        r
    }

    pub fn set_session(&self, name: &[u8], rec: SessionRecord) -> Result<(), RtspError> {
        let (mut reg, handle) = self.lock.acquire_write();
        let r = reg.set_session(name, rec);
        handle.release_write(reg);
        r
    }

    pub fn remove_session(&self, name: &[u8]) {
        let (mut reg, handle) = self.lock.acquire_write();
        reg.remove_session(name);
        handle.release_write(reg);
    }

    pub fn push_accepts(&self, name: &[u8]) -> bool {
        let handle = self.lock.acquire_read();
        let r = handle.borrow().push_accepts(name);
        handle.release_read();
        r
    }

    /// Dispatches one request while holding the write lock, so the whole
    /// method, registry lookup and mutation included, is one atomic step
    /// with respect to every other worker.
    pub fn handle_request(&self, req: &crate::codec::RtspRequest) -> (r: (
        crate::codec::RtspResponse,
        crate::engine::TransportAction,
    ))
        ensures
            r.0.cseq == req.cseq,
            r.0.status == 200 || r.0.status == 400,
    {
        let (mut reg, handle) = self.lock.acquire_write();
        let r = crate::engine::handle_request(req, &mut reg);
        handle.release_write(reg);
        r
    }
}

/// No two sessions are ever visible for one stream name: in a well-formed
/// registry the entries for a name are unique, so a replacement under the
/// owner's lock leaves exactly one installed.
pub proof fn lemma_session_exclusive(reg: Registry, name: Seq<u8>, i: int, j: int)
    requires
        reg.wf(),
        0 <= i < reg.sessions@.len(),
        0 <= j < reg.sessions@.len(),
        reg.sessions@[i].0@ == name,
        reg.sessions@[j].0@ == name,
    ensures
        i == j,
{
}

} // verus!
