//! Instance lifetime: shared ownership through explicit reference counts,
//! floating references, destruction with weak-reference invalidation, and
//! weak handles.
//!
//! Handles are plain instance identifiers; a holder that duplicates its
//! handle calls [`Runtime::clone_ref`] and drops it with
//! [`Runtime::drop_ref`]. The runtime records every destruction once, in
//! order, in its destruction log.

use vstd::prelude::*;

use crate::runtime::{InstModel, RtModel, Runtime};

verus! {

/// A non-owning reference: a slot that the runtime clears when the target
/// instance is destroyed. A handle without a slot never upgrades.
#[derive(Clone, Copy, Debug, PartialEq, Eq, Structural)]
pub struct WeakHandle {
    pub slot: Option<usize>,
}

impl WeakHandle {
    /// A weak handle that points at nothing.
    pub fn new() -> (h: WeakHandle)
        ensures
            h.slot is None,
    {
        WeakHandle { slot: None }
    }
}

/// A weak handle confined to the thread that created it, identified by a
/// caller-supplied thread token; duplicating and dropping it are free, but
/// only the owning thread may take the handle out.
#[derive(Clone, Copy, Debug, PartialEq, Eq, Structural)]
pub struct SendWeakHandle {
    pub handle: WeakHandle,
    pub thread: Option<u64>,
}

impl SendWeakHandle {
    /// A confined handle that points at nothing and belongs to no thread.
    pub fn new() -> (h: SendWeakHandle)
        ensures
            h.handle.slot is None,
            h.thread is None,
    {
        SendWeakHandle { handle: WeakHandle { slot: None }, thread: None }
    }

    /// Confines `handle` to the thread identified by `thread`.
    pub fn from_weak(handle: WeakHandle, thread: u64) -> (h: SendWeakHandle)
        ensures
            h.handle == handle,
            h.thread == Some(thread),
    {
        SendWeakHandle { handle, thread: Some(thread) }
    }

    /// Takes the plain weak handle back out. The caller passes the token of
    /// the thread it runs on; taking the handle out on any other thread is
    /// a programming error and is excluded here rather than detected at run
    /// time.
    pub fn into_weak_ref(self, current_thread: u64) -> (r: WeakHandle)
        requires
            self.thread matches Some(t) ==> t == current_thread,
        ensures
            r == self.handle,
    {
        self.handle
    }
}

/// The weak-slot table after the slots aimed at `iid` are cleared.
pub open spec fn spec_clear_weaks(weaks: Seq<Option<usize>>, iid: usize) -> Seq<Option<usize>> {
    Seq::new(
        weaks.len(),
        |k: int|
            if weaks[k] == Some(iid) {
                None
            } else {
                weaks[k]
            },
    )
}

impl Runtime {
    /// Duplicates an owned reference: increments the instance's reference
    /// count. Never fails on a live instance (the count is bounded only by
    /// the machine word).
    pub fn clone_ref(&mut self, iid: usize)
        requires
            old(self).wf(),
            (iid as int) < old(self)@.insts.len(),
            old(self)@.insts[iid as int].alive,
            old(self)@.insts[iid as int].ref_count < u64::MAX,
        ensures
            final(self).wf(),
            final(self)@ == (RtModel {
                insts: old(self)@.insts.update(
                    iid as int,
                    InstModel {
                        ref_count: (old(self)@.insts[iid as int].ref_count + 1) as u64,
                        ..old(self)@.insts[iid as int]
                    },
                ),
                ..old(self)@
            }),
    {
        let ghost om = self@;
        let ghost beforev = self.instances@;
        let s = &mut self.instances[iid];
        s.ref_count = s.ref_count + 1;
        proof {
            let im2 = InstModel {
                ref_count: (om.insts[iid as int].ref_count + 1) as u64,
                ..om.insts[iid as int]
            };
            assert forall|x: int| 0 <= x < self@.insts.len() implies #[trigger] self@.insts[x]
                == om.insts.update(iid as int, im2)[x] by {
                assert(self@.insts[x] == self.instances@[x]@);
                if x != iid as int {
                    assert(self.instances@[x] == beforev[x]);
                    assert(om.insts[x] == beforev[x]@);
                }
            }
            assert(self@.insts =~= om.insts.update(iid as int, im2));
            assert(self@ =~= RtModel { insts: om.insts.update(iid as int, im2), ..om });
            assert(crate::resolve::rt_wf(self@));
        }
    }

    /// Drops an owned reference: decrements the reference count. When the
    /// last reference is dropped the instance is destroyed exactly once:
    /// every weak slot aimed at it is cleared first, the slot is marked
    /// dead, and the destruction is recorded in the destruction log.
    pub fn drop_ref(&mut self, iid: usize)
        requires
            old(self).wf(),
            (iid as int) < old(self)@.insts.len(),
            old(self)@.insts[iid as int].alive,
        ensures
            final(self).wf(),
            old(self)@.insts[iid as int].ref_count > 1 ==> final(self)@ == (RtModel {
                insts: old(self)@.insts.update(
                    iid as int,
                    InstModel {
                        ref_count: (old(self)@.insts[iid as int].ref_count - 1) as u64,
                        ..old(self)@.insts[iid as int]
                    },
                ),
                ..old(self)@
            }),
            old(self)@.insts[iid as int].ref_count == 1 ==> final(self)@ == (RtModel {
                insts: old(self)@.insts.update(
                    iid as int,
                    InstModel {
                        alive: false,
                        ref_count: 0,
                        floating: false,
                        ..old(self)@.insts[iid as int]
                    },
                ),
                weaks: spec_clear_weaks(old(self)@.weaks, iid),
                destroyed: old(self)@.destroyed.push(iid),
                ..old(self)@
            }),
    {
        let ghost om = self@;
        let count = self.instances[iid].ref_count;
        proof {
            assert(om.insts[iid as int] == self.instances@[iid as int]@);
        }
        if count > 1 {
            let ghost beforev = self.instances@;
            let s = &mut self.instances[iid];
            s.ref_count = s.ref_count - 1;
            proof {
                let im2 = InstModel {
                    ref_count: (om.insts[iid as int].ref_count - 1) as u64,
                    ..om.insts[iid as int]
                };
                assert forall|x: int| 0 <= x < self@.insts.len() implies #[trigger] self@.insts[x]
                    == om.insts.update(iid as int, im2)[x] by {
                    assert(self@.insts[x] == self.instances@[x]@);
                    if x != iid as int {
                        assert(self.instances@[x] == beforev[x]);
                        assert(om.insts[x] == beforev[x]@);
                    }
                }
                assert(self@.insts =~= om.insts.update(iid as int, im2));
                assert(self@ =~= RtModel { insts: om.insts.update(iid as int, im2), ..om });
                assert(crate::resolve::rt_wf(self@));
            }
        } else {
            // Last reference: invalidate weak handles, then destroy.
            let mut k: usize = 0;
            while k < self.weak_slots.len()
                invariant
                    k <= self.weak_slots@.len(),
                    self.weak_slots@.len() == om.weaks.len(),
                    self.classes@ == old(self).classes@,
                    self.instances@ == old(self).instances@,
                    self.connections@ == old(self).connections@,
                    self.bindings@ == old(self).bindings@,
                    self.dispatch_log@ == old(self).dispatch_log@,
                    self.destroyed@ == old(self).destroyed@,
                    forall|x: int|
                        0 <= x < k ==> #[trigger] self.weak_slots@[x] == spec_clear_weaks(
                            om.weaks,
                            iid,
                        )[x],
                    forall|x: int| k <= x < om.weaks.len() ==> #[trigger] self.weak_slots@[x]
                        == om.weaks[x],
                decreases om.weaks.len() - k,
            {
                let clear = match self.weak_slots[k] {
                    Some(t) => t == iid,
                    None => false,
                };
                if clear {
                    self.weak_slots[k] = None;
                }
                k = k + 1;
            }
            proof {
                assert(self.weak_slots@ =~= spec_clear_weaks(om.weaks, iid));
            }
            let ghost beforev = self.instances@;
            {
                let s = &mut self.instances[iid];
                s.alive = false;
                s.ref_count = 0;
                s.floating = false;
            }
            self.destroyed.push(iid);
            proof {
                let im2 = InstModel {
                    alive: false,
                    ref_count: 0,
                    floating: false,
                    ..om.insts[iid as int]
                };
                assert forall|x: int| 0 <= x < self@.insts.len() implies #[trigger] self@.insts[x]
                    == om.insts.update(iid as int, im2)[x] by {
                    assert(self@.insts[x] == self.instances@[x]@);
                    if x != iid as int {
                        assert(self.instances@[x] == beforev[x]);
                        assert(om.insts[x] == beforev[x]@);
                    }
                }
                assert(self@.insts =~= om.insts.update(iid as int, im2));
                assert(self@ =~= RtModel {
                    insts: om.insts.update(iid as int, im2),
                    weaks: spec_clear_weaks(om.weaks, iid),
                    destroyed: om.destroyed.push(iid),
                    ..om
                });
                assert(crate::resolve::rt_wf(self@)) by {
                    assert forall|x: int|
                        0 <= x < self@.weaks.len() implies (#[trigger] self@.weaks[x]
                        matches Some(w) ==> (w as int) < self@.insts.len() && self@.insts[w
                        as int].alive) by {
                        assert(self@.weaks[x] == spec_clear_weaks(om.weaks, iid)[x]);
                    }
                    assert(!om.destroyed.contains(iid));
                    assert forall|x: int|
                        0 <= x < self@.insts.len() && !(#[trigger] self@.insts[x].alive) implies
                        self@.destroyed.contains(x as usize) by {
                        if x != iid as int {
                            assert(om.destroyed.contains(x as usize));
                            let w = choose|w: int|
                                0 <= w < om.destroyed.len() && om.destroyed[w] == x as usize;
                            assert(self@.destroyed[w] == x as usize);
                        } else {
                            assert(self@.destroyed[om.destroyed.len() as int] == iid);
                        }
                    }
                }
            }
        }
    }

    /// Converts a floating reference into an owned one without touching the
    /// count; sinking an already-sunk instance changes nothing.
    pub fn sink(&mut self, iid: usize)
        requires
            old(self).wf(),
            (iid as int) < old(self)@.insts.len(),
            old(self)@.insts[iid as int].alive,
        ensures
            final(self).wf(),
            final(self)@ == (RtModel {
                insts: old(self)@.insts.update(
                    iid as int,
                    InstModel { floating: false, ..old(self)@.insts[iid as int] },
                ),
                ..old(self)@
            }),
    {
        let ghost om = self@;
        let ghost beforev = self.instances@;
        let s = &mut self.instances[iid];
        s.floating = false;
        proof {
            let im2 = InstModel { floating: false, ..om.insts[iid as int] };
            assert forall|x: int| 0 <= x < self@.insts.len() implies #[trigger] self@.insts[x]
                == om.insts.update(iid as int, im2)[x] by {
                assert(self@.insts[x] == self.instances@[x]@);
                if x != iid as int {
                    assert(self.instances@[x] == beforev[x]);
                    assert(om.insts[x] == beforev[x]@);
                }
            }
            assert(self@.insts =~= om.insts.update(iid as int, im2));
            assert(self@ =~= RtModel { insts: om.insts.update(iid as int, im2), ..om });
            assert(crate::resolve::rt_wf(self@));
        }
    }

    /// The current reference count of a live instance, or nothing for an
    /// unknown or destroyed one.
    pub fn ref_count(&self, iid: usize) -> (r: Option<u64>)
        ensures
            ({
                let m = self@.insts;
                if (iid as int) < m.len() && m[iid as int].alive {
                    r == Some(m[iid as int].ref_count)
                } else {
                    r is None
                }
            }),
    {
        if iid < self.instances.len() {
            proof {
                assert(self@.insts[iid as int] == self.instances@[iid as int]@);
            }
            let s = &self.instances[iid];
            if s.alive {
                Some(s.ref_count)
            } else {
                None
            }
        } else {
            None
        }
    }

    /// The dynamic type of a live instance.
    pub fn type_of(&self, iid: usize) -> (r: Option<usize>)
        ensures
            ({
                let m = self@.insts;
                if (iid as int) < m.len() && m[iid as int].alive {
                    r == Some(m[iid as int].type_id)
                } else {
                    r is None
                }
            }),
    {
        if iid < self.instances.len() {
            proof {
                assert(self@.insts[iid as int] == self.instances@[iid as int]@);
            }
            let s = &self.instances[iid];
            if s.alive {
                Some(s.type_id)
            } else {
                None
            }
        } else {
            None
        }
    }

    /// Whether the identifier names a live instance.
    pub fn is_alive(&self, iid: usize) -> (r: bool)
        ensures
            r == ((iid as int) < self@.insts.len() && self@.insts[iid as int].alive),
    {
        if iid < self.instances.len() {
            proof {
                assert(self@.insts[iid as int] == self.instances@[iid as int]@);
            }
            self.instances[iid].alive
        } else {
            false
        }
    }

    /// Whether a live instance still carries its initial floating
    /// reference.
    pub fn is_floating(&self, iid: usize) -> (r: bool)
        ensures
            r == ((iid as int) < self@.insts.len() && self@.insts[iid as int].floating),
    {
        if iid < self.instances.len() {
            proof {
                assert(self@.insts[iid as int] == self.instances@[iid as int]@);
            }
            self.instances[iid].floating
        } else {
            false
        }
    }

    /// Whether a live instance can be treated as type `target`.
    pub fn instance_is(&self, iid: usize, target: usize) -> (r: bool)
        requires
            self.wf(),
        ensures
            r == ((iid as int) < self@.insts.len() && self@.insts[iid as int].alive
                && crate::resolve::spec_is_a(self@.classes, self@.insts[iid as int].type_id, target)),
    {
        match self.type_of(iid) {
            Some(t) => self.is_a(t, target),
            None => false,
        }
    }

    /// Checked conversion: the same instance under the target type if its
    /// dynamic type is compatible, nothing otherwise.
    pub fn downcast(&self, iid: usize, target: usize) -> (r: Option<usize>)
        requires
            self.wf(),
        ensures
            ({
                let ok = (iid as int) < self@.insts.len() && self@.insts[iid as int].alive
                    && crate::resolve::spec_is_a(
                    self@.classes,
                    self@.insts[iid as int].type_id,
                    target,
                );
                if ok {
                    r == Some(iid)
                } else {
                    r is None
                }
            }),
    {
        if self.instance_is(iid, target) {
            Some(iid)
        } else {
            None
        }
    }

    /// Registers a weak observer of a live instance and returns its handle.
    pub fn downgrade(&mut self, iid: usize) -> (h: WeakHandle)
        requires
            old(self).wf(),
            (iid as int) < old(self)@.insts.len(),
            old(self)@.insts[iid as int].alive,
        ensures
            final(self).wf(),
            final(self)@ == (RtModel {
                weaks: old(self)@.weaks.push(Some(iid)),
                ..old(self)@
            }),
            h.slot == Some((old(self)@.weaks.len()) as usize),
    {
        let slot = self.weak_slots.len();
        self.weak_slots.push(Some(iid));
        proof {
            assert(self@ =~= RtModel { weaks: old(self)@.weaks.push(Some(iid)), ..old(self)@ });
            assert(crate::resolve::rt_wf(self@));
        }
        WeakHandle { slot: Some(slot) }
    }

    /// Duplicates a weak handle: the copy observes whatever the original
    /// observes right now.
    pub fn clone_weak(&mut self, h: &WeakHandle) -> (r: WeakHandle)
        requires
            old(self).wf(),
            h.slot matches Some(s) ==> (s as int) < old(self)@.weaks.len(),
        ensures
            final(self).wf(),
            match h.slot {
                None => r.slot is None && final(self)@ == old(self)@,
                Some(s) => r.slot == Some((old(self)@.weaks.len()) as usize) && final(self)@ == (
                RtModel { weaks: old(self)@.weaks.push(old(self)@.weaks[s as int]), ..old(self)@ }),
            },
    {
        match h.slot {
            None => WeakHandle { slot: None },
            Some(s) => {
                let slot = self.weak_slots.len();
                let cur = self.weak_slots[s];
                self.weak_slots.push(cur);
                proof {
                    assert(self@ =~= RtModel {
                        weaks: old(self)@.weaks.push(old(self)@.weaks[s as int]),
                        ..old(self)@
                    });
                    assert(crate::resolve::rt_wf(self@));
                }
                WeakHandle { slot: Some(slot) }
            },
        }
    }

    /// Upgrades a weak handle: if the observed instance is still alive, a
    /// new owned reference to it (the count is incremented); nothing after
    /// the target was destroyed, and never a dangling reference.
    pub fn upgrade(&mut self, h: &WeakHandle) -> (r: Option<usize>)
        requires
            old(self).wf(),
            h.slot matches Some(s) ==> (s as int) < old(self)@.weaks.len(),
            h.slot matches Some(s) ==> (old(self)@.weaks[s as int] matches Some(iid) ==> old(
                self,
            )@.insts[iid as int].ref_count < u64::MAX),
        ensures
            final(self).wf(),
            ({
                let tgt = match h.slot {
                    Some(s) => old(self)@.weaks[s as int],
                    None => None,
                };
                match tgt {
                    None => r is None && final(self)@ == old(self)@,
                    Some(iid) => r == Some(iid) && old(self)@.insts[iid as int].alive
                        && final(self)@ == (RtModel {
                        insts: old(self)@.insts.update(
                            iid as int,
                            InstModel {
                                ref_count: (old(self)@.insts[iid as int].ref_count + 1) as u64,
                                ..old(self)@.insts[iid as int]
                            },
                        ),
                        ..old(self)@
                    }),
                }
            }),
    {
        match h.slot {
            None => None,
            Some(s) => {
                match self.weak_slots[s] {
                    None => None,
                    Some(iid) => {
                        self.clone_ref(iid);
                        Some(iid)
                    },
                }
            },
        }
    }
}

} // verus!
