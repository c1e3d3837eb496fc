//! Property access on live instances: validated writes that fire the
//! reserved change notification and drive the active bindings, and
//! flag-checked reads.

use vstd::prelude::*;

use crate::bindings::spec_propagate;
use crate::errors::PropertyError;
use crate::resolve::{lemma_find_prop_in, spec_all_props, spec_find_prop};
use crate::runtime::{PropertyDescriptor, RtModel, Runtime};
use crate::signals::{spec_commit, spec_emit, EMIT_DEPTH_LIMIT};
use crate::values::{vals_view, ValModel, Value};

verus! {

/// What a property write does: resolution, flag check (construct-only
/// properties are not writable here), type and range validation, the
/// commit, one emission of the reserved change signal detailed with the
/// property's name, and one round of binding propagation carrying the
/// stored value.
pub open spec fn spec_set_property(rt: RtModel, iid: usize, name: Seq<char>, v: ValModel) -> (
    RtModel,
    Result<(), PropertyError>,
) {
    if !((iid as int) < rt.insts.len() && rt.insts[iid as int].alive) {
        (rt, Err(PropertyError::NotFound))
    } else {
        let tid = rt.insts[iid as int].type_id;
        match spec_find_prop(rt.classes, tid, name) {
            None => (rt, Err(PropertyError::NotFound)),
            Some(idx) => {
                let p = spec_all_props(rt.classes, tid)[idx];
                match crate::validate::spec_validate_property(rt.classes, rt.insts, p, false, v) {
                    Err(e) => (rt, Err(e)),
                    Ok(v2) => {
                        if !(0 <= idx < rt.insts[iid as int].values.len()) {
                            (rt, Err(PropertyError::NotFound))
                        } else {
                            let rt1 = spec_commit(rt, iid, idx, v2);
                            let rt2 = spec_emit(
                                rt1,
                                iid,
                                "notify"@,
                                Some(name),
                                seq![ValModel::Str(name)],
                                EMIT_DEPTH_LIMIT,
                            ).0;
                            let rt3 = spec_propagate(
                                rt2,
                                iid,
                                name,
                                v2,
                                rt2.bindings.len() as int,
                            );
                            (rt3, Ok(()))
                        }
                    },
                }
            },
        }
    }
}

/// What a property read returns: the stored value of a readable, resolved
/// property of a live instance.
pub open spec fn spec_get_property(rt: RtModel, iid: usize, name: Seq<char>) -> Result<
    ValModel,
    PropertyError,
> {
    if !((iid as int) < rt.insts.len() && rt.insts[iid as int].alive) {
        Err(PropertyError::NotFound)
    } else {
        let tid = rt.insts[iid as int].type_id;
        match spec_find_prop(rt.classes, tid, name) {
            None => Err(PropertyError::NotFound),
            Some(idx) => {
                let p = spec_all_props(rt.classes, tid)[idx];
                if !p.flags.readable {
                    Err(PropertyError::NotReadable)
                } else if 0 <= idx < rt.insts[iid as int].values.len() {
                    Ok(rt.insts[iid as int].values[idx])
                } else {
                    Err(PropertyError::NotFound)
                }
            },
        }
    }
}

/// The error one (name, value) pair gives on its own when written to a live
/// instance, if any.
pub open spec fn spec_pair_err(rt: RtModel, iid: usize, pair: (Seq<char>, ValModel)) -> Option<
    PropertyError,
> {
    let tid = rt.insts[iid as int].type_id;
    match spec_find_prop(rt.classes, tid, pair.0) {
        None => Some(PropertyError::NotFound),
        Some(idx) => match crate::validate::spec_validate_property(
            rt.classes,
            rt.insts,
            spec_all_props(rt.classes, tid)[idx],
            false,
            pair.1,
        ) {
            Err(e) => Some(e),
            Ok(_) => None,
        },
    }
}

/// The first error among a batch of writes, validated against one state.
pub open spec fn spec_first_pair_err(
    rt: RtModel,
    iid: usize,
    pairs: Seq<(Seq<char>, ValModel)>,
) -> Option<PropertyError>
    decreases pairs.len(),
{
    if pairs.len() == 0 {
        None
    } else {
        match spec_pair_err(rt, iid, pairs[0]) {
            Some(e) => Some(e),
            None => spec_first_pair_err(rt, iid, pairs.drop_first()),
        }
    }
}

/// A first failing pair determines the precheck result.
pub proof fn lemma_first_pair_err(
    rt: RtModel,
    iid: usize,
    pairs: Seq<(Seq<char>, ValModel)>,
    i: int,
    e: PropertyError,
)
    requires
        0 <= i < pairs.len(),
        forall|j: int| 0 <= j < i ==> spec_pair_err(rt, iid, #[trigger] pairs[j]) is None,
        spec_pair_err(rt, iid, pairs[i]) == Some(e),
    ensures
        spec_first_pair_err(rt, iid, pairs) == Some(e),
    decreases i,
{
    if i > 0 {
        assert(forall|j: int|
            0 <= j < pairs.len() - 1 ==> #[trigger] pairs.drop_first()[j] == pairs[j + 1]);
        assert forall|j: int|
            0 <= j < i - 1 implies spec_pair_err(rt, iid, #[trigger] pairs.drop_first()[j])
            is None by {
            assert(pairs.drop_first()[j] == pairs[j + 1]);
        }
        assert(pairs.drop_first()[i - 1] == pairs[i]);
        lemma_first_pair_err(rt, iid, pairs.drop_first(), i - 1, e);
    }
}

/// A batch with no failing pair prechecks clean.
pub proof fn lemma_first_pair_err_none(rt: RtModel, iid: usize, pairs: Seq<(Seq<char>, ValModel)>)
    requires
        forall|j: int| 0 <= j < pairs.len() ==> spec_pair_err(rt, iid, #[trigger] pairs[j]) is None,
    ensures
        spec_first_pair_err(rt, iid, pairs) is None,
    decreases pairs.len(),
{
    if pairs.len() > 0 {
        assert(forall|j: int|
            0 <= j < pairs.len() - 1 ==> #[trigger] pairs.drop_first()[j] == pairs[j + 1]);
        assert forall|j: int|
            0 <= j < pairs.len() - 1 implies spec_pair_err(rt, iid, #[trigger] pairs.drop_first()[j])
            is None by {
            assert(pairs.drop_first()[j] == pairs[j + 1]);
        }
        lemma_first_pair_err_none(rt, iid, pairs.drop_first());
    }
}

/// The state after a batch of writes runs, in order, each through the full
/// write path.
pub open spec fn spec_fold_set(rt: RtModel, iid: usize, pairs: Seq<(Seq<char>, ValModel)>) -> RtModel
    decreases pairs.len(),
{
    if pairs.len() == 0 {
        rt
    } else {
        spec_fold_set(
            spec_set_property(rt, iid, pairs[0].0, pairs[0].1).0,
            iid,
            pairs.drop_first(),
        )
    }
}

impl Runtime {
    /// Stores a value into a property of a live instance: resolves the name
    /// across the ancestor chain, checks the writable flag (construct-only
    /// properties cannot be set after construction), validates the value's
    /// type under the covariant object rule and its range (clamping under
    /// lax validation), commits, fires the reserved change signal detailed
    /// with the property's name, and propagates the active bindings.
    pub fn set_property(&mut self, iid: usize, name: &String, v: &Value) -> (r: Result<
        (),
        PropertyError,
    >)
        requires
            old(self).wf(),
        ensures
            final(self).wf(),
            ({
                let o = spec_set_property(old(self)@, iid, name@, v@);
                final(self)@ == o.0 && r == o.1
            }),
    {
        let ghost om = self@;
        let tid = match self.type_of(iid) {
            Some(t) => t,
            None => {
                return Err(PropertyError::NotFound);
            },
        };
        let vn = self.instances[iid].values.len();
        proof {
            assert(om.insts[iid as int] == self.instances@[iid as int]@);
            assert(spec_all_props(om.classes, tid).len() == vn as int);
        }
        let idx = match self.find_prop_index(tid, name) {
            Some(i) => i,
            None => {
                return Err(PropertyError::NotFound);
            },
        };
        let d = match self.find_property(tid, name) {
            Some(d) => d,
            None => {
                proof {
                    assert(false);
                }
                return Err(PropertyError::NotFound);
            },
        };
        proof {
            lemma_find_prop_in(spec_all_props(om.classes, tid), name@);
        }
        let v2 = match self.validate_property_value(&d, false, v) {
            Ok(v2) => v2,
            Err(e) => {
                return Err(e);
            },
        };
        let ghost v2m = v2@;
        let v2p = v2.duplicate();
        self.commit_value(iid, idx, v2);
        let notify_name = "notify".to_owned();
        let mut notify_args: Vec<Value> = Vec::new();
        notify_args.push(Value::Str(name.clone()));
        proof {
            assert(vals_view(notify_args@) =~= seq![ValModel::Str(name@)]);
        }
        let _ = self.emit_inner(iid, &notify_name, Some(name), &notify_args, EMIT_DEPTH_LIMIT);
        self.propagate_bindings(iid, name, &v2p);
        Ok(())
    }

    /// Reads a property of a live instance: resolves the name, checks the
    /// readable flag, and returns a copy of the stored value.
    pub fn get_property(&self, iid: usize, name: &String) -> (r: Result<Value, PropertyError>)
        requires
            self.wf(),
        ensures
            ({
                let o = spec_get_property(self@, iid, name@);
                match r {
                    Ok(v) => o == Ok::<ValModel, PropertyError>(v@),
                    Err(e) => o == Err::<ValModel, PropertyError>(e),
                }
            }),
    {
        let ghost om = self@;
        let tid = match self.type_of(iid) {
            Some(t) => t,
            None => {
                return Err(PropertyError::NotFound);
            },
        };
        let vn = self.instances[iid].values.len();
        proof {
            assert(om.insts[iid as int] == self.instances@[iid as int]@);
            assert(spec_all_props(om.classes, tid).len() == vn as int);
        }
        let idx = match self.find_prop_index(tid, name) {
            Some(i) => i,
            None => {
                return Err(PropertyError::NotFound);
            },
        };
        let d = match self.find_property(tid, name) {
            Some(d) => d,
            None => {
                proof {
                    assert(false);
                }
                return Err(PropertyError::NotFound);
            },
        };
        proof {
            lemma_find_prop_in(spec_all_props(om.classes, tid), name@);
        }
        if !d.flags.readable {
            return Err(PropertyError::NotReadable);
        }
        let out = self.instances[iid].values[idx].duplicate();
        proof {
            assert(om.insts[iid as int].values[idx as int] == vals_view(
                self.instances@[iid as int].values@,
            )[idx as int]);
        }
        Ok(out)
    }

    /// Stores several properties at once: every pair is validated against
    /// the current state first, and only if all of them pass are the writes
    /// performed, in order, each with its change notification and binding
    /// propagation. On a validation failure nothing is written.
    pub fn set_properties(&mut self, iid: usize, pairs: &Vec<(String, Value)>) -> (r: Result<
        (),
        PropertyError,
    >)
        requires
            old(self).wf(),
        ensures
            final(self).wf(),
            ({
                let om = old(self)@;
                let pm = crate::construct::pairs_view(pairs@);
                let live = (iid as int) < om.insts.len() && om.insts[iid as int].alive;
                match r {
                    Ok(_) => live && spec_first_pair_err(om, iid, pm) is None && final(self)@
                        == spec_fold_set(om, iid, pm),
                    Err(e) => final(self)@ == om && ((!live && e == PropertyError::NotFound) || (
                    live && spec_first_pair_err(om, iid, pm) == Some(e))),
                }
            }),
    {
        let ghost om = self@;
        let ghost pm = crate::construct::pairs_view(pairs@);
        let tid = match self.type_of(iid) {
            Some(t) => t,
            None => {
                return Err(PropertyError::NotFound);
            },
        };
        let vn = self.instances[iid].values.len();
        proof {
            assert(om.insts[iid as int] == self.instances@[iid as int]@);
            assert(spec_all_props(om.classes, tid).len() == vn as int);
        }
        let mut i: usize = 0;
        while i < pairs.len()
            invariant
                self.wf(),
                self@ == om,
                (iid as int) < om.insts.len(),
                om.insts[iid as int].alive,
                tid == om.insts[iid as int].type_id,
                spec_all_props(om.classes, tid).len() <= usize::MAX,
                pm == crate::construct::pairs_view(pairs@),
                pm.len() == pairs@.len(),
                i <= pairs@.len(),
                forall|j: int|
                    0 <= j < i ==> spec_pair_err(om, iid, #[trigger] pm[j]) is None,
            decreases pairs@.len() - i,
        {
            proof {
                assert(pm[i as int] == (pairs@[i as int].0@, pairs@[i as int].1@));
            }
            let name = &pairs[i].0;
            let value = &pairs[i].1;
            match self.find_prop_index(tid, name) {
                None => {
                    proof {
                        lemma_first_pair_err(om, iid, pm, i as int, PropertyError::NotFound);
                    }
                    return Err(PropertyError::NotFound);
                },
                Some(_) => {
                    let d = match self.find_property(tid, name) {
                        Some(d) => d,
                        None => {
                            proof {
                                assert(false);
                            }
                            return Err(PropertyError::NotFound);
                        },
                    };
                    match self.validate_property_value(&d, false, value) {
                        Err(e) => {
                            proof {
                                assert(spec_pair_err(om, iid, pm[i as int]) == Some(e));
                                lemma_first_pair_err(om, iid, pm, i as int, e);
                            }
                            return Err(e);
                        },
                        Ok(_) => {
                            proof {
                                assert(spec_pair_err(om, iid, pm[i as int]) is None);
                            }
                        },
                    }
                },
            }
            i = i + 1;
        }
        proof {
            lemma_first_pair_err_none(om, iid, pm);
            assert(pm.skip(0) =~= pm);
        }
        // Commit phase: every pair goes through the full write path.
        let mut k: usize = 0;
        while k < pairs.len()
            invariant
                self.wf(),
                pm == crate::construct::pairs_view(pairs@),
                pm.len() == pairs@.len(),
                k <= pairs@.len(),
                spec_fold_set(om, iid, pm) == spec_fold_set(self@, iid, pm.skip(k as int)),
            decreases pairs@.len() - k,
        {
            let ghost mid = self@;
            proof {
                assert(pm[k as int] == (pairs@[k as int].0@, pairs@[k as int].1@));
                assert(pm.skip(k as int)[0] == pm[k as int]);
                assert(pm.skip(k as int).drop_first() =~= pm.skip(k as int + 1));
            }
            let _ = self.set_property(iid, &pairs[k].0, &pairs[k].1);
            k = k + 1;
        }
        proof {
            assert(pm.skip(pm.len() as int) =~= Seq::<(Seq<char>, ValModel)>::empty());
        }
        Ok(())
    }

    /// Copies of every property descriptor visible on type `t`, in the
    /// flattened (most-derived first) order.
    pub fn list_properties(&self, t: usize) -> (r: Vec<PropertyDescriptor>)
        requires
            self.wf(),
        ensures
            r@.len() == spec_all_props(self@.classes, t).len(),
            forall|i: int|
                0 <= i < r@.len() ==> #[trigger] r@[i]@ == spec_all_props(self@.classes, t)[i],
    {
        let ghost all = spec_all_props(self@.classes, t);
        let mut out: Vec<PropertyDescriptor> = Vec::new();
        if t >= self.classes.len() {
            proof {
                assert(all =~= Seq::<crate::runtime::PropModel>::empty());
            }
            return out;
        }
        let mut cur: usize = t;
        let ghost mut done: Seq<crate::runtime::PropModel> = Seq::empty();
        proof {
            assert(all =~= done + spec_all_props(self@.classes, cur));
        }
        loop
            invariant
                self.wf(),
                (cur as int) < self@.classes.len(),
                all == spec_all_props(self@.classes, t),
                all == done + spec_all_props(self@.classes, cur),
                out@.len() == done.len(),
                forall|i: int| 0 <= i < out@.len() ==> #[trigger] out@[i]@ == done[i],
            decreases cur,
        {
            let c = &self.classes[cur];
            let ghost cm = self@.classes[cur as int];
            let ghost own = cm.props;
            let ghost rest = match cm.parent {
                Some(p) => if p < cur {
                    spec_all_props(self@.classes, p)
                } else {
                    Seq::empty()
                },
                None => Seq::empty(),
            };
            proof {
                assert(cm == self.classes@[cur as int]@);
                assert(own == c.properties@.map_values(|p: PropertyDescriptor| p@));
                assert(spec_all_props(self@.classes, cur) == own + rest);
            }
            let mut j: usize = 0;
            while j < c.properties.len()
                invariant
                    j <= c.properties@.len(),
                    own == c.properties@.map_values(|p: PropertyDescriptor| p@),
                    out@.len() == done.len() + j,
                    forall|i: int|
                        0 <= i < out@.len() ==> #[trigger] out@[i]@ == (done + own.take(
                            j as int,
                        ))[i],
                decreases c.properties@.len() - j,
            {
                out.push(c.properties[j].duplicate());
                proof {
                    assert(own[j as int] == c.properties@[j as int]@);
                    assert forall|i: int| 0 <= i < out@.len() implies #[trigger] out@[i]@ == (done
                        + own.take(j as int + 1))[i] by {
                        if i < done.len() + j {
                            assert((done + own.take(j as int + 1))[i] == (done + own.take(
                                j as int,
                            ))[i]);
                        } else {
                            assert((done + own.take(j as int + 1))[i] == own[j as int]);
                        }
                    }
                }
                j = j + 1;
            }
            proof {
                assert(own.take(own.len() as int) =~= own);
                let done2 = done + own;
                assert(all =~= done2 + rest);
                done = done2;
            }
            match c.parent {
                Some(p) => {
                    proof {
                        assert(cm.parent matches Some(q) && q == p);
                        assert((p as int) < cur as int);
                    }
                    cur = p;
                },
                None => {
                    proof {
                        assert(rest =~= Seq::<crate::runtime::PropModel>::empty());
                        assert(all =~= done);
                    }
                    return out;
                },
            }
        }
    }

    /// Fires the reserved change signal for one property by hand, as an
    /// observer would after changing state it mirrors.
    pub fn notify(&mut self, iid: usize, name: &String)
        requires
            old(self).wf(),
        ensures
            final(self).wf(),
            final(self)@ == spec_emit(
                old(self)@,
                iid,
                "notify"@,
                Some(name@),
                seq![ValModel::Str(name@)],
                EMIT_DEPTH_LIMIT,
            ).0,
    {
        let notify_name = "notify".to_owned();
        let mut notify_args: Vec<Value> = Vec::new();
        notify_args.push(Value::Str(name.clone()));
        proof {
            assert(vals_view(notify_args@) =~= seq![ValModel::Str(name@)]);
        }
        let _ = self.emit_inner(iid, &notify_name, Some(name), &notify_args, EMIT_DEPTH_LIMIT);
    }
}

} // verus!
