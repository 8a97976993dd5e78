//! The process-wide index of live sessions: identity to opaque
//! connection-task handle. It holds no ownership of session state;
//! cross-task operations resolve a handle here and send a message to the
//! owning task. Inserts and removals for one identity are serialized by
//! the caller's guard, so two simultaneous logins for the same identity
//! cannot both be recorded.

use vstd::prelude::*;
use crate::machine::ConnectionError;

verus! {

/// Whether a live session is recorded for the identity.
pub open spec fn reg_contains(s: Seq<(u128, u64)>, identity: u128) -> bool {
    exists|i: int| 0 <= i < s.len() && s[i].0 == identity
}

/// The handle recorded for the identity, scanning from the front.
pub open spec fn spec_lookup(s: Seq<(u128, u64)>, identity: u128) -> Option<u64>
    decreases s.len(),
{
    if s.len() == 0 {
        None
    } else if s[0].0 == identity {
        Some(s[0].1)
    } else {
        spec_lookup(s.drop_first(), identity)
    }
}

/// How a registry looks after the one session of `identity`, if any, was
/// forgotten: an absent identity leaves it untouched, a present one loses
/// exactly its own record, and either way the identity is gone.
pub open spec fn removed_identity(
    before: Seq<(u128, u64)>,
    after: Seq<(u128, u64)>,
    identity: u128,
) -> bool {
    &&& (!reg_contains(before, identity) ==> after == before)
    &&& (reg_contains(before, identity) ==> exists|i: int|
        0 <= i < before.len() && before[i].0 == identity && after == before.remove(i))
    &&& !reg_contains(after, identity)
}

/// The registry of live sessions.
pub struct SessionRegistry {
    sessions: Vec<(u128, u64)>,
}

impl SessionRegistry {
    /// The recorded (identity, handle) pairs, in insertion order.
    pub closed spec fn entries(&self) -> Seq<(u128, u64)> {
        self.sessions@
    }

    /// No identity is recorded twice.
    pub open spec fn wf(&self) -> bool {
        forall|i: int, j: int|
            0 <= i < j < self.entries().len() ==> self.entries()[i].0 != self.entries()[j].0
    }

    /// An empty registry.
    pub fn new() -> (r: Self)
        ensures
            r.entries() == Seq::<(u128, u64)>::empty(),
            r.wf(),
    {
        Self { sessions: Vec::new() }
    }

    /// Whether a live session is recorded for the identity.
    fn contains(&self, identity: u128) -> (r: bool)
        ensures
            r == reg_contains(self.entries(), identity),
    {
        let mut i: usize = 0;
        while i < self.sessions.len()
            invariant
                i <= self.sessions@.len(),
                forall|j: int| 0 <= j < i ==> self.sessions@[j].0 != identity,
            decreases self.sessions@.len() - i,
        {
            if self.sessions[i].0 == identity {
                return true;
            }
            i = i + 1;
        }
        false
    }

    /// Records a live session for the identity; refused as a duplicate
    /// login exactly when the identity already holds one.
    pub fn insert(&mut self, identity: u128, handle: u64) -> (r: Result<(), ConnectionError>)
        requires
            old(self).wf(),
        ensures
            final(self).wf(),
            (r is Ok <==> !reg_contains(old(self).entries(), identity)),
            r is Ok ==> final(self).entries() == old(self).entries().push((identity, handle)),
            r is Err ==> final(self).entries() == old(self).entries() && r == Err::<
                (),
                ConnectionError,
            >(ConnectionError::DuplicateLogin),
    {
        if self.contains(identity) {
            Err(ConnectionError::DuplicateLogin)
        } else {
            let ghost before = self.sessions@;
            self.sessions.push((identity, handle));
            proof {
                assert forall|i: int, j: int|
                    0 <= i < j < self.sessions@.len() implies self.sessions@[i].0
                    != self.sessions@[j].0 by {
                    if j < before.len() {
                    } else {
                        assert(self.sessions@[j] == (identity, handle));
                        assert(!reg_contains(before, identity));
                        assert(self.sessions@[i] == before[i]);
                    }
                }
            }
            Ok(())
        }
    }

    /// Forgets the session recorded for the identity; removing an absent
    /// identity is a no-op, not an error.
    pub fn remove(&mut self, identity: u128)
        requires
            old(self).wf(),
        ensures
            final(self).wf(),
            removed_identity(old(self).entries(), final(self).entries(), identity),
    {
        let ghost before = self.sessions@;
        let mut i: usize = 0;
        while i < self.sessions.len()
            invariant
                self.sessions@ == before,
                i <= before.len(),
                before == old(self).entries(),
                old(self).wf(),
                forall|j: int| 0 <= j < i ==> before[j].0 != identity,
                forall|p: int, q: int| 0 <= p < q < before.len() ==> before[p].0 != before[q].0,
            decreases before.len() - i,
        {
            if self.sessions[i].0 == identity {
                self.sessions.remove(i);
                proof {
                    before.remove_ensures(i as int);
                    let s = before.remove(i as int);
                    assert forall|p: int, q: int| 0 <= p < q < s.len() implies s[p].0
                        != s[q].0 by {
                        assert(s[p] == (if p < i as int {
                            before[p]
                        } else {
                            before[p + 1]
                        }));
                        assert(s[q] == (if q < i as int {
                            before[q]
                        } else {
                            before[q + 1]
                        }));
                    }
                    assert forall|p: int| 0 <= p < s.len() implies s[p].0 != identity by {
                        assert(s[p] == (if p < i as int {
                            before[p]
                        } else {
                            before[p + 1]
                        }));
                    }
                }
                return ;
            }
            i = i + 1;
        }
        proof {
            assert forall|p: int| 0 <= p < before.len() implies before[p].0 != identity by {}
        }
    }

    /// The handle of the live session for the identity, if one is
    /// recorded.
    pub fn lookup(&self, identity: u128) -> (r: Option<u64>)
        ensures
            r == spec_lookup(self.entries(), identity),
    {
        let ghost s = self.sessions@;
        let mut i: usize = 0;
        proof {
            assert(s.skip(0) =~= s);
        }
        while i < self.sessions.len()
            invariant
                s == self.sessions@,
                i <= s.len(),
                spec_lookup(s, identity) == spec_lookup(s.skip(i as int), identity),
            decreases s.len() - i,
        {
            if self.sessions[i].0 == identity {
                proof {
                    assert(s.skip(i as int)[0] == s[i as int]);
                }
                return Some(self.sessions[i].1);
            }
            proof {
                assert(s.skip(i as int).drop_first() =~= s.skip(i as int + 1));
                assert(s.skip(i as int)[0] == s[i as int]);
            }
            i = i + 1;
        }
        None
    }
}

/// Law: of two login attempts for the same identity, serialized by the
/// registry's per-identity guard, exactly one is recorded. Whichever
/// insert runs first finds the identity absent and succeeds; the insert
/// that runs second finds it present and is refused as a duplicate login.
pub proof fn lemma_concurrent_login_exclusive(s: Seq<(u128, u64)>, identity: u128, handle: u64)
    requires
        !reg_contains(s, identity),
    ensures
        reg_contains(s.push((identity, handle)), identity),
{
    assert(s.push((identity, handle))[s.len() as int].0 == identity);
}

} // verus!
