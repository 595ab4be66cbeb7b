//! Keyed directory of live sessions: fresh random identifiers, lookup, and
//! removal by the reaper.

use vstd::prelude::*;

verus! {

/// Draws a fresh random 128-bit session identifier.
///
/// Relies on uuid::Uuid::new_v4, which fills the value from a
/// cryptographically strong random source, and uuid::Uuid::as_u128, which
/// returns those 128 bits; nothing is promised of a random value.
#[verifier::external_body]
fn fresh_session_id() -> u128 {
    uuid::Uuid::new_v4().as_u128()
}

/// A directory of live entries keyed by session identifier.
///
/// The entry type is whatever the host keeps per session; the directory
/// only guarantees the key discipline.
pub struct SessionStore<T> {
    entries: Vec<(u128, T)>,
}

impl<T> SessionStore<T> {
    /// The keyed entries, in insertion order.
    pub closed spec fn entries(&self) -> Seq<(u128, T)> {
        self.entries@
    }

    /// Some entry carries identifier `id`.
    pub open spec fn has_id(&self, id: u128) -> bool {
        exists|i: int| 0 <= i < self.entries().len() && (#[trigger] self.entries()[i]).0 == id
    }

    /// Identifiers are unique over the directory.
    pub open spec fn wf(&self) -> bool {
        forall|i: int, j: int|
            0 <= i < j < self.entries().len() ==> (#[trigger] self.entries()[i]).0 != (
            #[trigger] self.entries()[j]).0
    }

    /// An empty directory.
    pub fn new() -> (r: Self)
        ensures
            r.wf(),
            r.entries() == Seq::<(u128, T)>::empty(),
    {
        SessionStore { entries: Vec::new() }
    }

    /// Registers `value` under a freshly drawn random identifier and returns
    /// that identifier. Should the drawn identifier already be present, the
    /// old entry is replaced, as a keyed table would.
    pub fn insert(&mut self, value: T) -> (id: u128)
        requires
            old(self).wf(),
        ensures
            final(self).wf(),
            final(self).has_id(id),
            old(self).has_id(id) ==> exists|i: int|
                0 <= i < old(self).entries().len() && (#[trigger] old(self).entries()[i]).0 == id
                    && final(self).entries() == old(self).entries().remove(i).push((id, value)),
            !old(self).has_id(id) ==> final(self).entries() == old(self).entries().push(
                (id, value),
            ),
    {
        let id = fresh_session_id();
        self.remove(id);
        self.entries.push((id, value));
        proof {
            let n = self.entries().len();
            assert((self.entries()[n - 1]).0 == id);
        }
        id
    }

    /// Looks an entry up by identifier.
    pub fn get(&self, id: u128) -> (r: Option<&T>)
        ensures
            match r {
                Some(v) => exists|i: int|
                    0 <= i < self.entries().len() && #[trigger] self.entries()[i] == (id, *v),
                None => !self.has_id(id),
            },
    {
        let n: usize = self.entries.len();
        for i in 0..n
            invariant
                n == self.entries().len(),
                forall|j: int| 0 <= j < i ==> (#[trigger] self.entries()[j]).0 != id,
        {
            if self.entries[i].0 == id {
                return Some(&self.entries[i].1);
            }
        }
        None
    }

    /// Whether an entry carries identifier `id`.
    pub fn contains(&self, id: u128) -> (r: bool)
        ensures
            r == self.has_id(id),
    {
        let n: usize = self.entries.len();
        for i in 0..n
            invariant
                n == self.entries().len(),
                forall|j: int| 0 <= j < i ==> (#[trigger] self.entries()[j]).0 != id,
        {
            if self.entries[i].0 == id {
                return true;
            }
        }
        false
    }

    /// Removes the entry carrying `id`, if any; afterwards the identifier
    /// no longer resolves.
    pub fn remove(&mut self, id: u128) -> (removed: bool)
        requires
            old(self).wf(),
        ensures
            final(self).wf(),
            !final(self).has_id(id),
            removed == old(self).has_id(id),
            removed ==> exists|i: int|
                0 <= i < old(self).entries().len() && (#[trigger] old(self).entries()[i]).0 == id
                    && final(self).entries() == old(self).entries().remove(i),
            !removed ==> final(self).entries() == old(self).entries(),
    {
        let n: usize = self.entries.len();
        for i in 0..n
            invariant
                n == self.entries().len(),
                self.wf(),
                self.entries() == old(self).entries(),
                forall|j: int| 0 <= j < i ==> (#[trigger] self.entries()[j]).0 != id,
        {
            if self.entries[i].0 == id {
                let ghost pre = self.entries();
                self.entries.remove(i);
                proof {
                    assert(self.entries() =~= pre.remove(i as int));
                    assert forall|k: int|
                        0 <= k < self.entries().len() implies (#[trigger] self.entries()[k]).0
                        != id by {
                        if k < i {
                            assert(self.entries()[k] == pre[k]);
                        } else {
                            assert(self.entries()[k] == pre[k + 1]);
                        }
                    }
                }
                return true;
            }
        }
        false
    }

    /// Number of live entries.
    pub fn len(&self) -> (r: usize)
        ensures
            r == self.entries().len(),
    {
        self.entries.len()
    }
}

} // verus!
