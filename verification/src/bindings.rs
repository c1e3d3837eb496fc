//! Property bindings: a builder describing a property-to-property
//! synchronization contract, its activation, and the propagation that runs
//! when a bound property changes.

use vstd::prelude::*;

use crate::resolve::{spec_all_props, spec_find_prop};
use crate::runtime::{BindModel, Binding, RtModel, Runtime, Transform};
use crate::validate::spec_validate_property;
use crate::values::{ValModel, Value};

verus! {

/// Describes a binding before it is activated: source and target instances
/// and property names, direction, and the transformations applied while
/// propagating.
#[derive(Debug)]
pub struct BindingBuilder {
    pub source: usize,
    pub source_prop: String,
    pub target: usize,
    pub target_prop: String,
    pub bidirectional: bool,
    pub transform_to: Transform,
    pub transform_from: Transform,
}

impl View for BindingBuilder {
    type V = BindModel;

    open spec fn view(&self) -> BindModel {
        BindModel {
            source: self.source,
            source_prop: self.source_prop@,
            target: self.target,
            target_prop: self.target_prop@,
            bidirectional: self.bidirectional,
            transform_to: self.transform_to,
            transform_from: self.transform_from,
        }
    }
}

/// The value a transformation propagates: boolean negation and integer
/// offsets transform values of their kind; everything else (including an
/// offset that would overflow) passes through unchanged.
pub open spec fn spec_transform(t: Transform, v: ValModel) -> ValModel {
    match t {
        Transform::Identity => v,
        Transform::BoolNot => match v {
            ValModel::Bool(b) => ValModel::Bool(!b),
            _ => v,
        },
        Transform::IntAdd(d) => match v {
            ValModel::Int(i) => if i64::MIN <= i + d <= i64::MAX {
                ValModel::Int((i + d) as i64)
            } else {
                v
            },
            _ => v,
        },
    }
}

/// Applies a transformation to a boxed value.
pub fn apply_transform(t: Transform, v: &Value) -> (r: Value)
    ensures
        r@ == spec_transform(t, v@),
{
    match t {
        Transform::Identity => v.duplicate(),
        Transform::BoolNot => match v {
            Value::Bool(b) => Value::Bool(!*b),
            _ => v.duplicate(),
        },
        Transform::IntAdd(d) => match v {
            Value::Int(i) => match i.checked_add(d) {
                Some(s) => Value::Int(s),
                None => v.duplicate(),
            },
            _ => v.duplicate(),
        },
    }
}

/// A binding write: validates the propagated value against the receiving
/// property (full flag, type and range validation) and stores it; a write
/// that does not validate, or whose receiver is gone, is dropped silently.
/// Binding writes do not fire change notifications and do not propagate
/// further: one change propagates one hop.
pub open spec fn spec_bind_write(rt: RtModel, tgt: usize, prop: Seq<char>, v: ValModel) -> RtModel {
    if (tgt as int) < rt.insts.len() && rt.insts[tgt as int].alive {
        let tid = rt.insts[tgt as int].type_id;
        match spec_find_prop(rt.classes, tid, prop) {
            Some(idx) => {
                let p = spec_all_props(rt.classes, tid)[idx];
                match spec_validate_property(rt.classes, rt.insts, p, false, v) {
                    Ok(v2) => if 0 <= idx < rt.insts[tgt as int].values.len() {
                        crate::signals::spec_commit(rt, tgt, idx, v2)
                    } else {
                        rt
                    },
                    Err(_) => rt,
                }
            },
            None => rt,
        }
    } else {
        rt
    }
}

/// What one binding does when property `prop` of instance `iid` changed to
/// `v`: forward propagation when the binding's source changed, backward
/// propagation for a bidirectional binding whose target changed, nothing
/// otherwise.
pub open spec fn spec_propagate_one(
    rt: RtModel,
    b: BindModel,
    iid: usize,
    prop: Seq<char>,
    v: ValModel,
) -> RtModel {
    if b.source == iid && b.source_prop == prop {
        spec_bind_write(rt, b.target, b.target_prop, spec_transform(b.transform_to, v))
    } else if b.bidirectional && b.target == iid && b.target_prop == prop {
        spec_bind_write(rt, b.source, b.source_prop, spec_transform(b.transform_from, v))
    } else {
        rt
    }
}

/// Runs the first `n` bindings, in activation order, on one property
/// change.
pub open spec fn spec_propagate(
    rt: RtModel,
    iid: usize,
    prop: Seq<char>,
    v: ValModel,
    n: int,
) -> RtModel
    decreases n,
{
    if n <= 0 {
        rt
    } else {
        let rt1 = spec_propagate(rt, iid, prop, v, n - 1);
        spec_propagate_one(rt1, rt1.bindings[n - 1], iid, prop, v)
    }
}

/// Whether a binding description can be activated: both instances must be
/// alive, the source property must resolve and be readable, and the target
/// property must resolve and be writable outside construction.
pub open spec fn spec_binding_ok(rt: RtModel, b: BindModel) -> bool {
    &&& (b.source as int) < rt.insts.len() && rt.insts[b.source as int].alive
    &&& (b.target as int) < rt.insts.len() && rt.insts[b.target as int].alive
    &&& (spec_find_prop(rt.classes, rt.insts[b.source as int].type_id, b.source_prop)
        matches Some(i) && spec_all_props(
        rt.classes,
        rt.insts[b.source as int].type_id,
    )[i].flags.readable)
    &&& (spec_find_prop(rt.classes, rt.insts[b.target as int].type_id, b.target_prop)
        matches Some(i) && spec_all_props(
        rt.classes,
        rt.insts[b.target as int].type_id,
    )[i].flags.writable && !spec_all_props(
        rt.classes,
        rt.insts[b.target as int].type_id,
    )[i].flags.construct_only)
}

impl BindingBuilder {
    /// Starts describing a binding from one instance's property to
    /// another's.
    pub fn new(source: usize, source_prop: String, target: usize, target_prop: String) -> (b:
        BindingBuilder)
        ensures
            b@ == (BindModel {
                source,
                source_prop: source_prop@,
                target,
                target_prop: target_prop@,
                bidirectional: false,
                transform_to: Transform::Identity,
                transform_from: Transform::Identity,
            }),
    {
        BindingBuilder {
            source,
            source_prop,
            target,
            target_prop,
            bidirectional: false,
            transform_to: Transform::Identity,
            transform_from: Transform::Identity,
        }
    }

    /// Sets the transformation applied while propagating source to target.
    pub fn transform_to(self, t: Transform) -> (b: BindingBuilder)
        ensures
            b@ == (BindModel { transform_to: t, ..self@ }),
    {
        BindingBuilder { transform_to: t, ..self }
    }

    /// Sets the transformation applied while propagating target back to
    /// source (bidirectional bindings only).
    pub fn transform_from(self, t: Transform) -> (b: BindingBuilder)
        ensures
            b@ == (BindModel { transform_from: t, ..self@ }),
    {
        BindingBuilder { transform_from: t, ..self }
    }

    /// Sets the direction flag: a bidirectional binding also propagates
    /// target changes back to the source.
    pub fn flags(self, bidirectional: bool) -> (b: BindingBuilder)
        ensures
            b@ == (BindModel { bidirectional, ..self@ }),
    {
        BindingBuilder { bidirectional, ..self }
    }

    /// Activates the binding: from now on every change of the bound
    /// property propagates. Returns nothing (and activates nothing) if the
    /// description cannot be bound.
    pub fn build(self, rt: &mut Runtime) -> (r: Option<usize>)
        requires
            old(rt).wf(),
        ensures
            final(rt).wf(),
            spec_binding_ok(old(rt)@, self@) ==> r == Some((old(rt)@.bindings.len()) as usize)
                && final(rt)@ == (RtModel {
                bindings: old(rt)@.bindings.push(self@),
                ..old(rt)@
            }),
            !spec_binding_ok(old(rt)@, self@) ==> r is None && final(rt)@ == old(rt)@,
    {
        let ghost om = rt@;
        let src_ok = match rt.type_of(self.source) {
            Some(t) => match rt.find_property(t, &self.source_prop) {
                Some(d) => d.flags.readable,
                None => false,
            },
            None => false,
        };
        let tgt_ok = match rt.type_of(self.target) {
            Some(t) => match rt.find_property(t, &self.target_prop) {
                Some(d) => d.flags.writable && !d.flags.construct_only,
                None => false,
            },
            None => false,
        };
        if !(src_ok && tgt_ok) {
            return None;
        }
        let bid = rt.bindings.len();
        rt.bindings.push(
            Binding {
                source: self.source,
                source_prop: self.source_prop,
                target: self.target,
                target_prop: self.target_prop,
                bidirectional: self.bidirectional,
                transform_to: self.transform_to,
                transform_from: self.transform_from,
            },
        );
        proof {
            assert(rt@.bindings =~= om.bindings.push(rt.bindings@[bid as int]@));
            assert(rt.bindings@[bid as int]@ =~= (BindModel {
                source: self.source,
                source_prop: self.source_prop@,
                target: self.target,
                target_prop: self.target_prop@,
                bidirectional: self.bidirectional,
                transform_to: self.transform_to,
                transform_from: self.transform_from,
            }));
            assert(rt@ =~= RtModel { bindings: om.bindings.push(self@), ..om });
            assert(crate::resolve::rt_wf(rt@));
        }
        Some(bid)
    }
}

impl Runtime {
    /// One binding write (see [`spec_bind_write`]).
    pub(crate) fn bind_write(&mut self, tgt: usize, prop: &String, v: Value)
        requires
            old(self).wf(),
        ensures
            final(self).wf(),
            final(self)@ == spec_bind_write(old(self)@, tgt, prop@, v@),
    {
        let ghost om = self@;
        let tid = match self.type_of(tgt) {
            Some(t) => t,
            None => {
                return ;
            },
        };
        let vn = self.instances[tgt].values.len();
        proof {
            assert(om.insts[tgt as int] == self.instances@[tgt as int]@);
            assert(spec_all_props(om.classes, tid).len() == vn as int);
        }
        let idx = match self.find_prop_index(tid, prop) {
            Some(i) => i,
            None => {
                return ;
            },
        };
        let d = match self.find_property(tid, prop) {
            Some(d) => d,
            None => {
                proof {
                    assert(false);
                }
                return ;
            },
        };
        proof {
            crate::resolve::lemma_find_prop_in(spec_all_props(om.classes, tid), prop@);
        }
        match self.validate_property_value(&d, false, &v) {
            Ok(v2) => {
                self.commit_value(tgt, idx, v2);
            },
            Err(_) => (),
        }
    }

    /// Runs one binding on a property change (see [`spec_propagate_one`]).
    fn propagate_binding(&mut self, k: usize, iid: usize, prop: &String, v: &Value)
        requires
            old(self).wf(),
            (k as int) < old(self)@.bindings.len(),
        ensures
            final(self).wf(),
            final(self)@ == spec_propagate_one(old(self)@, old(self)@.bindings[k as int], iid, prop@, v@),
    {
        let ghost om = self@;
        proof {
            assert(om.bindings[k as int] == self.bindings@[k as int]@);
        }
        let (src, tgt, bidi, tto, tfrom) = {
            let b = &self.bindings[k];
            (b.source, b.target, b.bidirectional, b.transform_to, b.transform_from)
        };
        let forward = {
            let b = &self.bindings[k];
            src == iid && b.source_prop == *prop
        };
        if forward {
            let (tprop, tv) = {
                let b = &self.bindings[k];
                (b.target_prop.clone(), apply_transform(tto, v))
            };
            self.bind_write(tgt, &tprop, tv);
            return ;
        }
        let backward = {
            let b = &self.bindings[k];
            bidi && tgt == iid && b.target_prop == *prop
        };
        if backward {
            let (sprop, sv) = {
                let b = &self.bindings[k];
                (b.source_prop.clone(), apply_transform(tfrom, v))
            };
            self.bind_write(src, &sprop, sv);
        }
    }

    /// Runs every active binding, in activation order, on one property
    /// change (see [`spec_propagate`]). Binding writes commit directly:
    /// they fire no notifications and do not propagate further.
    pub(crate) fn propagate_bindings(&mut self, iid: usize, prop: &String, v: &Value)
        requires
            old(self).wf(),
        ensures
            final(self).wf(),
            final(self)@ == spec_propagate(
                old(self)@,
                iid,
                prop@,
                v@,
                old(self)@.bindings.len() as int,
            ),
    {
        let ghost om = self@;
        let n = self.bindings.len();
        let mut k: usize = 0;
        while k < n
            invariant
                self.wf(),
                k <= n,
                n == om.bindings.len(),
                self@ == spec_propagate(om, iid, prop@, v@, k as int),
                self@.bindings == om.bindings,
                self.bindings@.len() == n,
            decreases n - k,
        {
            proof {
                assert(self@.bindings[k as int] == om.bindings[k as int]);
            }
            self.propagate_binding(k, iid, prop, v);
            k = k + 1;
        }
    }
}

} // verus!
