use vstd::prelude::*;
use std::collections::HashMap;

use crate::error::{QuipayError, QuipayResult};
use crate::Address;

verus! {

broadcast use vstd::std_specs::hash::group_hash_axioms;

/// What the directory records of a worker.
#[derive(Debug)]
pub struct WorkerProfile {
    pub wallet: Address,
    pub preferred_token: Address,
    pub metadata_hash: String,
}

impl WorkerProfile {
    /// A field-by-field copy.
    pub fn duplicate(&self) -> (r: WorkerProfile)
        ensures
            r == *self,
    {
        WorkerProfile {
            wallet: self.wallet,
            preferred_token: self.preferred_token,
            metadata_hash: self.metadata_hash.clone(),
        }
    }
}

/// The workers an employer currently streams to, by slot, with each worker's
/// slot recorded beside the list so that removal takes constant time.
struct Roster {
    workers: Vec<Address>,
    slots: HashMap<Address, usize>,
}

impl Roster {
    fn new() -> (r: Roster)
        ensures
            r.wf(),
            r.workers@ == Seq::<Address>::empty(),
    {
        Roster { workers: Vec::new(), slots: HashMap::new() }
    }

    proof fn lemma_no_duplicates(&self)
        requires
            self.wf(),
        ensures
            self.workers@.no_duplicates(),
    {
        assert forall|i: int, j: int|
            0 <= i < self.workers@.len() && 0 <= j < self.workers@.len() && i != j implies self.workers@[i]
            != self.workers@[j] by {
            assert(self.slots@.contains_key(self.workers@[i]));
            assert(self.slots@.contains_key(self.workers@[j]));
        }
    }

    fn contains(&self, w: Address) -> (r: bool)
        requires
            self.wf(),
        ensures
            r == self.workers@.contains(w),
    {
        let r = self.slots.contains_key(&w);
        proof {
            if r {
                assert(self.workers@[self.slots@[w] as int] == w);
            } else {
                assert forall|i: int| 0 <= i < self.workers@.len() implies self.workers@[i] != w by {
                    assert(self.slots@.contains_key(self.workers@[i]));
                }
            }
        }
        r
    }

    /// Appends `w` in a new last slot.
    fn push(&mut self, w: Address)
        requires
            old(self).wf(),
            !old(self).workers@.contains(w),
        ensures
            final(self).wf(),
            final(self).workers@ == old(self).workers@.push(w),
    {
        let n = self.workers.len();
        self.workers.push(w);
        self.slots.insert(w, n);
        proof {
            assert forall|i: int| 0 <= i < self.workers@.len() implies #[trigger] self.slots@.contains_key(
                self.workers@[i],
            ) && self.slots@[self.workers@[i]] == i by {
                if i < n {
                    assert(old(self).slots@.contains_key(old(self).workers@[i]));
                    assert(old(self).workers@[i] != w);
                }
            }
            assert forall|v: Address| #[trigger] self.slots@.contains_key(v) implies self.slots@[v]
                < self.workers@.len() && self.workers@[self.slots@[v] as int] == v by {
                if v != w {
                    assert(old(self).slots@.contains_key(v));
                }
            }
        }
    }

    /// Removes `w`: the last entry moves into its slot and the list shrinks by one.
    fn remove(&mut self, w: Address)
        requires
            old(self).wf(),
            old(self).workers@.contains(w),
        ensures
            final(self).wf(),
            old(self).slots@.contains_key(w),
            old(self).workers@[old(self).slots@[w] as int] == w,
            final(self).workers@ == swap_removed(old(self).workers@, old(self).slots@[w] as int),
    {
        proof {
            let i = choose|i: int| 0 <= i < old(self).workers@.len() && old(self).workers@[i] == w;
            assert(old(self).slots@.contains_key(old(self).workers@[i]));
            self.lemma_no_duplicates();
        }
        let pos: usize = match self.slots.get(&w) {
            Some(p) => *p,
            None => {
                return;
            },
        };
        let last_pos: usize = self.workers.len() - 1;
        let last_worker = self.workers[last_pos];
        if pos != last_pos {
            self.workers.set(pos, last_worker);
            self.slots.insert(last_worker, pos);
        }
        self.workers.pop();
        self.slots.remove(&w);
        proof {
            let ow = old(self).workers@;
            let os = old(self).slots@;
            assert(self.workers@ =~= swap_removed(ow, pos as int));
            assert forall|i: int| 0 <= i < self.workers@.len() implies #[trigger] self.slots@.contains_key(
                self.workers@[i],
            ) && self.slots@[self.workers@[i]] == i by {
                if i == pos {
                    assert(self.workers@[i] == last_worker);
                    assert(last_worker != w);
                } else {
                    assert(self.workers@[i] == ow[i]);
                    assert(os.contains_key(ow[i]));
                    assert(ow[i] != w);
                    assert(ow[i] != last_worker);
                }
            }
            assert forall|v: Address| #[trigger] self.slots@.contains_key(v) implies self.slots@[v]
                < self.workers@.len() && self.workers@[self.slots@[v] as int] == v by {
                assert(v != w);
                if v == last_worker {
                    assert(pos != last_pos);
                } else {
                    assert(os.contains_key(v));
                    assert(os[v] != last_pos);
                    assert(os[v] != pos);
                }
            }
        }
    }

    /// `slots` maps exactly the listed workers to their positions.
    spec fn wf(&self) -> bool {
        &&& forall|i: int|
            0 <= i < self.workers@.len() ==> #[trigger] self.slots@.contains_key(self.workers@[i])
                && self.slots@[self.workers@[i]] == i
        &&& forall|w: Address| #[trigger]
            self.slots@.contains_key(w) ==> self.slots@[w] < self.workers@.len()
                && self.workers@[self.slots@[w] as int] == w
    }
}

/// Registered worker profiles and, per employer, the workers with an active stream.
pub struct WorkforceRegistryContract {
    workers: HashMap<Address, WorkerProfile>,
    rosters: HashMap<Address, Roster>,
}

/// The abstract state of a `WorkforceRegistryContract`.
pub struct RegistryView {
    pub workers: Map<Address, WorkerProfile>,
    pub active: Map<Address, Seq<Address>>,
}

/// Active workers of `employer`, in slot order.
pub open spec fn active_of(m: Map<Address, Seq<Address>>, employer: Address) -> Seq<Address> {
    if m.contains_key(employer) {
        m[employer]
    } else {
        Seq::empty()
    }
}

/// `s` with slot `i` overwritten by the last entry and the last slot dropped.
pub open spec fn swap_removed(s: Seq<Address>, i: int) -> Seq<Address> {
    s.update(i, s.last()).drop_last()
}

impl RegistryView {
    /// No worker is listed twice for an employer, and every listed worker is registered.
    pub open spec fn wf(self) -> bool {
        forall|e: Address| #[trigger]
            self.active.contains_key(e) ==> self.active[e].no_duplicates() && forall|i: int|
                0 <= i < self.active[e].len() ==> self.workers.contains_key(#[trigger] self.active[e][i])
    }

    /// Marks `worker` as streamed to by `employer` or not: a new active worker
    /// takes the last slot; a removed one is replaced by the last slot's worker.
    pub open spec fn set_active_outcome(self, employer: Address, worker: Address, active: bool) -> Result<
        RegistryView,
        QuipayError,
    > {
        let listed = active_of(self.active, employer);
        if !self.workers.contains_key(worker) {
            Err(QuipayError::WorkerNotRegistered)
        } else if active == listed.contains(worker) {
            Ok(self)
        } else if active {
            Ok(RegistryView { active: self.active.insert(employer, listed.push(worker)), ..self })
        } else {
            Ok(
                RegistryView {
                    active: self.active.insert(employer, swap_removed(listed, listed.index_of(worker))),
                    ..self
                },
            )
        }
    }

    /// The page of profiles from slot `start`, at most `limit` of them.
    pub open spec fn page(self, employer: Address, start: u32, limit: u32) -> Seq<WorkerProfile> {
        let listed = active_of(self.active, employer);
        let end = if start + limit > listed.len() { listed.len() as int } else { start + limit };
        if start >= listed.len() || limit == 0 {
            Seq::empty()
        } else {
            listed.subrange(start as int, end).map_values(|w: Address| self.workers[w])
        }
    }
}

/// Registering more workers keeps every roster entry registered.
proof fn lemma_more_workers_keeps_wf(before: RegistryView, after: RegistryView)
    requires
        before.wf(),
        after.active == before.active,
        forall|w: Address| before.workers.contains_key(w) ==> #[trigger] after.workers.contains_key(w),
    ensures
        after.wf(),
{
    assert forall|e: Address| #[trigger] after.active.contains_key(e) implies after.active[e].no_duplicates()
        && forall|i: int|
        0 <= i < after.active[e].len() ==> after.workers.contains_key(#[trigger] after.active[e][i]) by {
        assert(before.active.contains_key(e));
        assert forall|i: int| 0 <= i < after.active[e].len() implies after.workers.contains_key(
            #[trigger] after.active[e][i],
        ) by {
            assert(before.workers.contains_key(before.active[e][i]));
        }
    }
}

impl View for WorkforceRegistryContract {
    type V = RegistryView;

    closed spec fn view(&self) -> RegistryView {
        RegistryView {
            workers: self.workers@,
            active: self.rosters@.map_values(|r: Roster| r.workers@),
        }
    }
}

impl WorkforceRegistryContract {
    /// Every roster keeps its slot table consistent.
    pub closed spec fn rosters_wf(&self) -> bool {
        forall|e: Address| #[trigger] self.rosters@.contains_key(e) ==> self.rosters@[e].wf()
    }

    /// The invariant of the registry.
    pub open spec fn wf(&self) -> bool {
        self@.wf() && self.rosters_wf()
    }

    /// An empty registry.
    pub fn new() -> (r: WorkforceRegistryContract)
        ensures
            r@.workers == Map::<Address, WorkerProfile>::empty(),
            r@.active == Map::<Address, Seq<Address>>::empty(),
            r.wf(),
    {
        let r = WorkforceRegistryContract { workers: HashMap::new(), rosters: HashMap::new() };
        proof {
            assert(r@.active =~= Map::<Address, Seq<Address>>::empty());
        }
        r
    }

    /// Registers `worker`'s profile; refused when it is registered already.
    pub fn register_worker(
        &mut self,
        worker: Address,
        preferred_token: Address,
        metadata_hash: String,
    ) -> (r: QuipayResult<()>)
        requires
            old(self).wf(),
        ensures
            final(self).wf(),
            final(self)@.active == old(self)@.active,
            old(self)@.workers.contains_key(worker) ==> r == Err::<(), QuipayError>(
                QuipayError::WorkerAlreadyRegistered,
            ) && final(self)@.workers == old(self)@.workers,
            !old(self)@.workers.contains_key(worker) ==> r is Ok && final(self)@.workers == old(
                self,
            )@.workers.insert(worker, WorkerProfile { wallet: worker, preferred_token, metadata_hash }),
    {
        if self.workers.contains_key(&worker) {
            return Err(QuipayError::WorkerAlreadyRegistered);
        }
        let profile = WorkerProfile { wallet: worker, preferred_token, metadata_hash };
        self.workers.insert(worker, profile);
        proof {
            lemma_more_workers_keeps_wf(old(self)@, self@);
        }
        Ok(())
    }

    /// Replaces the profile of a registered worker.
    pub fn update_worker(
        &mut self,
        worker: Address,
        preferred_token: Address,
        metadata_hash: String,
    ) -> (r: QuipayResult<()>)
        requires
            old(self).wf(),
        ensures
            final(self).wf(),
            final(self)@.active == old(self)@.active,
            !old(self)@.workers.contains_key(worker) ==> r == Err::<(), QuipayError>(
                QuipayError::WorkerNotRegistered,
            ) && final(self)@.workers == old(self)@.workers,
            old(self)@.workers.contains_key(worker) ==> r is Ok && final(self)@.workers == old(
                self,
            )@.workers.insert(worker, WorkerProfile { wallet: worker, preferred_token, metadata_hash }),
    {
        if !self.workers.contains_key(&worker) {
            return Err(QuipayError::WorkerNotRegistered);
        }
        let profile = WorkerProfile { wallet: worker, preferred_token, metadata_hash };
        self.workers.insert(worker, profile);
        proof {
            lemma_more_workers_keeps_wf(old(self)@, self@);
        }
        Ok(())
    }

    pub fn get_worker(&self, worker: Address) -> (r: Option<WorkerProfile>)
        ensures
            r == (if self@.workers.contains_key(worker) {
                Some(self@.workers[worker])
            } else {
                None
            }),
    {
        match self.workers.get(&worker) {
            Some(p) => Some(p.duplicate()),
            None => None,
        }
    }

    /// Adds `worker` to or removes it from `employer`'s active workers.
    pub fn set_stream_active(&mut self, employer: Address, worker: Address, active: bool) -> (r: QuipayResult<
        (),
    >)
        requires
            old(self).wf(),
        ensures
            final(self).wf(),
            match old(self)@.set_active_outcome(employer, worker, active) {
                Ok(v) => r is Ok && final(self)@ == v,
                Err(e) => r == Err::<(), QuipayError>(e) && final(self)@ == old(self)@,
            },
    {
        if !self.workers.contains_key(&worker) {
            return Err(QuipayError::WorkerNotRegistered);
        }
        proof {
            if self.rosters@.contains_key(employer) {
                assert(self@.active[employer] == self.rosters@[employer].workers@);
            }
        }
        let listed = match self.rosters.get(&employer) {
            Some(roster) => roster.contains(worker),
            None => false,
        };
        if active == listed {
            return Ok(());
        }
        let mut roster = match self.rosters.remove(&employer) {
            Some(r) => r,
            None => Roster::new(),
        };
        let ghost before = roster.workers@;
        if active {
            roster.push(worker);
        } else {
            roster.remove(worker);
        }
        proof {
            roster.lemma_no_duplicates();
        }
        let ghost after = roster.workers@;
        self.rosters.insert(employer, roster);
        proof {
            let ov = old(self)@;
            assert(before == active_of(ov.active, employer));
            if !active {
                let i = old(self).rosters@[employer].slots@[worker] as int;
                old(self).rosters@[employer].lemma_no_duplicates();
                assert(before[i] == worker);
                assert(before[before.index_of(worker)] == worker);
                assert(before.index_of(worker) == i);
            }
            assert(self@.active =~= ov.active.insert(employer, after));
            assert forall|e: Address| #[trigger] self.rosters@.contains_key(e) implies self.rosters@[e].wf() by {
                if e != employer {
                    assert(old(self).rosters@.contains_key(e));
                }
            }
            assert forall|e: Address| #[trigger] self@.active.contains_key(e) implies self@.active[e].no_duplicates()
                && forall|i: int|
                0 <= i < self@.active[e].len() ==> self@.workers.contains_key(#[trigger] self@.active[e][i]) by {
                if e != employer {
                    assert(ov.active.contains_key(e));
                } else {
                    assert forall|i: int| 0 <= i < after.len() implies self@.workers.contains_key(
                        #[trigger] after[i],
                    ) by {
                        if active {
                            if i < before.len() {
                                assert(after[i] == before[i]);
                                assert(ov.active.contains_key(e));
                            }
                        } else {
                            let j = old(self).rosters@[employer].slots@[worker] as int;
                            assert(ov.active.contains_key(e));
                            if i == j {
                                assert(after[i] == before[before.len() - 1]);
                            } else {
                                assert(after[i] == before[i]);
                            }
                        }
                    }
                }
            }
        }
        Ok(())
    }

    /// Profiles of `employer`'s active workers from slot `start`, at most `limit` of them.
    pub fn get_workers_by_employer(&self, employer: Address, start: u32, limit: u32) -> (r: Vec<WorkerProfile>)
        requires
            self.wf(),
        ensures
            r@ == self@.page(employer, start, limit),
    {
        let roster = match self.rosters.get(&employer) {
            Some(roster) => roster,
            None => {
                return Vec::new();
            },
        };
        let ghost listed = roster.workers@;
        proof {
            assert(self@.active[employer] == listed);
        }
        let count: u64 = roster.workers.len() as u64;
        if start as u64 >= count || limit == 0 {
            return Vec::new();
        }
        let end: u64 = if start as u64 + limit as u64 > count {
            count
        } else {
            start as u64 + limit as u64
        };
        let stop: usize = end as usize;
        let mut out: Vec<WorkerProfile> = Vec::new();
        let mut i: usize = start as usize;
        while i < stop
            invariant
                start <= i <= stop <= listed.len(),
                listed == roster.workers@,
                self.wf(),
                self@.active.contains_key(employer),
                self@.active[employer] == listed,
                out@ == listed.subrange(start as int, i as int).map_values(|w: Address| self@.workers[w]),
            decreases stop - i,
        {
            let w = roster.workers[i];
            proof {
                assert(self@.workers.contains_key(self@.active[employer][i as int]));
            }
            let profile = match self.workers.get(&w) {
                Some(p) => p.duplicate(),
                None => {
                    return out;
                },
            };
            proof {
                assert(profile == self@.workers[listed[i as int]]);
            }
            out.push(profile);
            i += 1;
            proof {
                assert(out@ =~= listed.subrange(start as int, i as int).map_values(
                    |w: Address| self@.workers[w],
                ));
            }
        }
        out
    }

    pub fn is_registered(&self, worker: Address) -> (r: bool)
        ensures
            r == self@.workers.contains_key(worker),
    {
        self.workers.contains_key(&worker)
    }
}

} // verus!
