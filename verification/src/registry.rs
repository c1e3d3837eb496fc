//! Type registration: new types with parent and interfaces, property
//! installation, signal declaration, and the constructed hook. All
//! registration is rejected on sealed types (types that already have
//! instances).

use vstd::prelude::*;

use crate::errors::RegistryError;
use crate::resolve::{
    classes_chain_sealed, classes_ordered, lemma_all_props_prefix, lemma_all_props_update_same,
    lemma_all_props_update_unrelated, lemma_chain_sealed, rt_wf, spec_all_props, spec_find_prop,
    spec_find_prop_in, spec_find_sig_in, spec_is_ancestor,
};
use crate::runtime::{
    opt_handler_view, Accumulator, ClassMetadata, ClassModel, Handler, InstModel, PropModel,
    PropertyDescriptor, RtModel, Runtime, SigModel, SignalDescriptor, SignalFlags,
};
use crate::lookup::{find_in_props_upto, find_in_sigs};
use crate::validate::{spec_handler_conforms, spec_value_fits};
use crate::values::{value_eq, ValModel, Value, ValueType};

verus! {

/// The reserved property-change signal, declared implicitly on every root
/// type: one string argument (the property's name), no return value.
pub open spec fn spec_notify_signal() -> SigModel {
    SigModel {
        name: "notify"@,
        flags: SignalFlags { run_first: true, run_last: false, action: false },
        args: seq![ValueType::Str],
        ret: None,
        class_handler: None,
        accumulator: None,
    }
}

/// Builds the reserved property-change signal descriptor.
fn notify_signal() -> (s: SignalDescriptor)
    ensures
        s@ == spec_notify_signal(),
{
    let mut args: Vec<ValueType> = Vec::new();
    args.push(ValueType::Str);
    let s = SignalDescriptor {
        name: "notify".to_owned(),
        flags: SignalFlags { run_first: true, run_last: false, action: false },
        arg_types: args,
        return_type: None,
        class_handler: None,
        accumulator: None,
    };
    proof {
        assert(s@.args =~= seq![ValueType::Str]);
        assert(s@ =~= spec_notify_signal());
    }
    s
}

/// The metadata of a freshly registered type.
pub open spec fn spec_new_class(
    parent: Option<usize>,
    interfaces: Seq<usize>,
    is_abstract: bool,
    instantiable: bool,
    initially_unowned: bool,
) -> ClassModel {
    ClassModel {
        parent,
        interfaces,
        is_abstract,
        instantiable,
        initially_unowned,
        sealed: false,
        constructed_marker: None,
        props: Seq::empty(),
        signals: if parent is None {
            seq![spec_notify_signal()]
        } else {
            Seq::empty()
        },
    }
}

/// Checks one property descriptor on its own: the default value must fit
/// the declared type exactly (no retagging), and an integer range must be
/// non-empty and contain the default.
pub open spec fn spec_prop_desc_ok(
    classes: Seq<ClassModel>,
    insts: Seq<InstModel>,
    d: PropModel,
) -> Option<RegistryError> {
    if spec_value_fits(classes, insts, d.ty, d.default) != Some(d.default) {
        Some(RegistryError::TypeMismatch)
    } else if d.min > d.max {
        Some(RegistryError::InvalidRange)
    } else {
        match d.default {
            ValModel::Int(i) => if i < d.min || i > d.max {
                Some(RegistryError::InvalidRange)
            } else {
                None
            },
            _ => None,
        }
    }
}

/// Checks a batch of new descriptors in order against type `tid`: each name
/// must be fresh on the whole ancestor chain and among the earlier entries
/// of the batch, and each descriptor must be well formed. Returns the first
/// error.
pub open spec fn spec_check_props(
    classes: Seq<ClassModel>,
    insts: Seq<InstModel>,
    tid: usize,
    descs: Seq<PropModel>,
    batch: Seq<PropModel>,
) -> Option<RegistryError>
    decreases descs.len(),
{
    if descs.len() == 0 {
        None
    } else {
        let d = descs[0];
        if spec_find_prop(classes, tid, d.name) is Some || spec_find_prop_in(batch, d.name)
            is Some {
            Some(RegistryError::DuplicateProperty)
        } else {
            match spec_prop_desc_ok(classes, insts, d) {
                Some(e) => Some(e),
                None => spec_check_props(classes, insts, tid, descs.drop_first(), batch.push(d)),
            }
        }
    }
}

/// What declaring a signal does: the outcome and the new state, given the
/// old state, the target type and the declared signal.
pub open spec fn spec_add_signal_post(
    om: RtModel,
    nm: RtModel,
    r: Result<(), RegistryError>,
    tid: usize,
    sm: SigModel,
) -> bool {
    match r {
        Ok(_) => {
            &&& (tid as int) < om.classes.len()
            &&& !om.classes[tid as int].sealed
            &&& spec_find_sig_in(om.classes[tid as int].signals, sm.name) is None
            &&& (sm.class_handler matches Some(h) ==> spec_handler_conforms(
                om.classes,
                om.insts,
                tid,
                h,
                sm,
            ))
            &&& nm == RtModel {
                classes: om.classes.update(
                    tid as int,
                    ClassModel {
                        signals: om.classes[tid as int].signals.push(sm),
                        ..om.classes[tid as int]
                    },
                ),
                ..om
            }
        },
        Err(e) => nm == om && (((tid as int) >= om.classes.len() && e == RegistryError::NotFound)
            || ((tid as int) < om.classes.len() && om.classes[tid as int].sealed && e
            == RegistryError::Sealed) || ((tid as int) < om.classes.len() && !om.classes[tid
            as int].sealed && spec_find_sig_in(om.classes[tid as int].signals, sm.name) is Some && e
            == RegistryError::DuplicateSignal) || ((tid as int) < om.classes.len()
            && !om.classes[tid as int].sealed && spec_find_sig_in(
            om.classes[tid as int].signals,
            sm.name,
        ) is None && (sm.class_handler matches Some(h) && !spec_handler_conforms(
            om.classes,
            om.insts,
            tid,
            h,
            sm,
        )) && e == RegistryError::TypeMismatch)),
    }
}

/// Whether all identifiers in `ids` lie below `n`.
fn ids_in_range(ids: &Vec<usize>, n: usize) -> (r: bool)
    ensures
        r == forall|k: int| 0 <= k < ids@.len() ==> (#[trigger] ids@[k] as int) < n as int,
{
    let mut k: usize = 0;
    while k < ids.len()
        invariant
            k <= ids@.len(),
            forall|j: int| 0 <= j < k ==> (#[trigger] ids@[j] as int) < n as int,
        decreases ids@.len() - k,
    {
        if ids[k] >= n {
            return false;
        }
        k = k + 1;
    }
    true
}

impl Runtime {
    /// Registers a new type with the given parent, interfaces and flags and
    /// returns its identifier. Fails when the parent or an interface is not
    /// registered. Root types implicitly declare the reserved
    /// property-change signal.
    pub fn register(
        &mut self,
        parent: Option<usize>,
        interfaces: Vec<usize>,
        is_abstract: bool,
        instantiable: bool,
        initially_unowned: bool,
    ) -> (r: Result<usize, RegistryError>)
        requires
            old(self).wf(),
        ensures
            final(self).wf(),
            ({
                let bad = (match parent {
                    Some(p) => (p as int) >= old(self)@.classes.len(),
                    None => false,
                }) || (exists|k: int|
                    0 <= k < interfaces@.len() && (#[trigger] interfaces@[k] as int) >= old(
                        self,
                    )@.classes.len());
                match r {
                    Ok(tid) => !bad && tid == old(self)@.classes.len() && final(self)@ == RtModel {
                        classes: old(self)@.classes.push(
                            spec_new_class(
                                parent,
                                interfaces@,
                                is_abstract,
                                instantiable,
                                initially_unowned,
                            ),
                        ),
                        ..old(self)@
                    },
                    Err(e) => bad && e == RegistryError::NotFound && final(self)@ == old(self)@,
                }
            }),
    {
        let n = self.classes.len();
        match parent {
            Some(p) => if p >= n {
                return Err(RegistryError::NotFound);
            },
            None => (),
        }
        if !ids_in_range(&interfaces, n) {
            return Err(RegistryError::NotFound);
        }
        let signals: Vec<SignalDescriptor> = match parent {
            Some(_) => Vec::new(),
            None => {
                let mut v: Vec<SignalDescriptor> = Vec::new();
                v.push(notify_signal());
                v
            },
        };
        let c = ClassMetadata {
            parent,
            interfaces,
            is_abstract,
            instantiable,
            initially_unowned,
            sealed: false,
            constructed_marker: None,
            properties: Vec::new(),
            signals,
        };
        let ghost cm = c@;
        let ghost oldm = self@;
        self.classes.push(c);
        proof {
            assert(cm == spec_new_class(
                parent,
                interfaces@,
                is_abstract,
                instantiable,
                initially_unowned,
            )) by {
                assert(cm.signals =~= (if parent is None {
                    seq![spec_notify_signal()]
                } else {
                    Seq::<SigModel>::empty()
                }));
                assert(cm =~= spec_new_class(
                    parent,
                    interfaces@,
                    is_abstract,
                    instantiable,
                    initially_unowned,
                ));
            }
            assert(self@.classes =~= oldm.classes.push(cm));
            assert(self@ =~= RtModel { classes: oldm.classes.push(cm), ..oldm });
            let newc = self@.classes;
            assert forall|i: int| 0 <= i < oldm.classes.len() implies #[trigger] newc[i]
                == oldm.classes[i] by {}
            assert(rt_wf(self@)) by {
                assert(classes_ordered(newc));
                assert(classes_chain_sealed(newc));
                assert forall|i: int|
                    0 <= i < self@.insts.len() implies (#[trigger] self@.insts[i]).values.len()
                    == spec_all_props(newc, self@.insts[i].type_id).len() by {
                    lemma_all_props_prefix(oldm.classes, newc, self@.insts[i].type_id);
                }
            }
        }
        Ok(n)
    }

    /// The class metadata of a registered type.
    pub fn class_of(&self, tid: usize) -> (r: Result<&ClassMetadata, RegistryError>)
        ensures
            match r {
                Ok(c) => (tid as int) < self@.classes.len() && c@ == self@.classes[tid as int],
                Err(e) => (tid as int) >= self@.classes.len() && e == RegistryError::NotFound,
            },
    {
        if tid < self.classes.len() {
            let c = &self.classes[tid];
            proof {
                assert(self@.classes[tid as int] == self.classes@[tid as int]@);
            }
            Ok(c)
        } else {
            Err(RegistryError::NotFound)
        }
    }

    /// Names the boolean property that the runtime sets to `true` when
    /// construction of an instance of `tid` (or of a subtype) finishes:
    /// the type's constructed hook.
    pub fn set_constructed_marker(&mut self, tid: usize, prop: String) -> (r: Result<
        (),
        RegistryError,
    >)
        requires
            old(self).wf(),
        ensures
            final(self).wf(),
            match r {
                Ok(_) => (tid as int) < old(self)@.classes.len() && !old(self)@.classes[tid
                    as int].sealed && final(self)@ == RtModel {
                    classes: old(self)@.classes.update(
                        tid as int,
                        ClassModel {
                            constructed_marker: Some(prop@),
                            ..old(self)@.classes[tid as int]
                        },
                    ),
                    ..old(self)@
                },
                Err(e) => final(self)@ == old(self)@ && (((tid as int) >= old(self)@.classes.len() && e
                    == RegistryError::NotFound) || ((tid as int) < old(self)@.classes.len() && old(
                    self,
                )@.classes[tid as int].sealed && e == RegistryError::Sealed)),
            },
    {
        if tid >= self.classes.len() {
            return Err(RegistryError::NotFound);
        }
        if self.classes[tid].sealed {
            proof {
                assert(self@.classes[tid as int] == self.classes@[tid as int]@);
            }
            return Err(RegistryError::Sealed);
        }
        let ghost oldm = self@;
        proof {
            assert(oldm.classes[tid as int] == self.classes@[tid as int]@);
        }
        let c = &mut self.classes[tid];
        c.constructed_marker = Some(prop);
        proof {
            let cm2 = ClassModel { constructed_marker: Some(prop@), ..oldm.classes[tid as int] };
            assert(self@.classes =~= oldm.classes.update(tid as int, cm2));
            assert(self@ =~= RtModel {
                classes: oldm.classes.update(tid as int, cm2),
                ..oldm
            });
            let newc = self@.classes;
            assert(rt_wf(self@)) by {
                assert(classes_ordered(newc));
                assert(classes_chain_sealed(newc));
                assert forall|i: int|
                    0 <= i < self@.insts.len() implies (#[trigger] self@.insts[i]).values.len()
                    == spec_all_props(newc, self@.insts[i].type_id).len() by {
                    lemma_all_props_update_same(
                        oldm.classes,
                        tid as int,
                        cm2,
                        self@.insts[i].type_id,
                    );
                }
            }
        }
        Ok(())
    }

    /// Whether one descriptor on its own may be installed: its default fits
    /// its declared type and its integer range is sound.
    fn prop_desc_ok(&self, d: &PropertyDescriptor) -> (r: Option<RegistryError>)
        requires
            self.wf(),
        ensures
            r == spec_prop_desc_ok(self@.classes, self@.insts, d@),
    {
        match self.value_fits(d.value_type, &d.default) {
            None => {
                return Some(RegistryError::TypeMismatch);
            },
            Some(v2) => {
                if !value_eq(&v2, &d.default) {
                    return Some(RegistryError::TypeMismatch);
                }
            },
        }
        if d.min > d.max {
            return Some(RegistryError::InvalidRange);
        }
        match &d.default {
            Value::Int(iv) => {
                if *iv < d.min || *iv > d.max {
                    Some(RegistryError::InvalidRange)
                } else {
                    None
                }
            },
            _ => None,
        }
    }

    /// Installs a batch of property descriptors on an unsealed type. The
    /// batch is validated as a whole before anything is installed: names
    /// must be fresh on the ancestor chain and within the batch, defaults
    /// must fit their declared types, integer ranges must be sound. On any
    /// error nothing is installed.
    pub fn install_properties(&mut self, tid: usize, props: Vec<PropertyDescriptor>) -> (r: Result<
        (),
        RegistryError,
    >)
        requires
            old(self).wf(),
        ensures
            final(self).wf(),
            ({
                let dm = props@.map_values(|p: PropertyDescriptor| p@);
                let om = old(self)@;
                match r {
                    Ok(_) => (tid as int) < om.classes.len() && !om.classes[tid as int].sealed
                        && spec_check_props(om.classes, om.insts, tid, dm, Seq::empty()) is None
                        && final(self)@ == RtModel {
                        classes: om.classes.update(
                            tid as int,
                            ClassModel {
                                props: om.classes[tid as int].props + dm,
                                ..om.classes[tid as int]
                            },
                        ),
                        ..om
                    },
                    Err(e) => final(self)@ == om && (((tid as int) >= om.classes.len() && e
                        == RegistryError::NotFound) || ((tid as int) < om.classes.len()
                        && om.classes[tid as int].sealed && e == RegistryError::Sealed) || ((tid
                        as int) < om.classes.len() && !om.classes[tid as int].sealed
                        && spec_check_props(om.classes, om.insts, tid, dm, Seq::empty()) == Some(
                        e,
                    ))),
                }
            }),
    {
        let ghost om = old(self)@;
        let ghost dm = props@.map_values(|p: PropertyDescriptor| p@);
        if tid >= self.classes.len() {
            return Err(RegistryError::NotFound);
        }
        if self.classes[tid].sealed {
            proof {
                assert(om.classes[tid as int] == self.classes@[tid as int]@);
            }
            return Err(RegistryError::Sealed);
        }
        proof {
            assert(om.classes[tid as int] == self.classes@[tid as int]@);
        }
        proof {
            assert(dm.skip(0) =~= dm);
            assert(dm.take(0) =~= Seq::<PropModel>::empty());
        }
        let mut i: usize = 0;
        while i < props.len()
            invariant
                self.wf(),
                self@ == om,
                (tid as int) < om.classes.len(),
                !om.classes[tid as int].sealed,
                dm == props@.map_values(|p: PropertyDescriptor| p@),
                i <= props@.len(),
                spec_check_props(om.classes, om.insts, tid, dm, Seq::empty())
                    == spec_check_props(
                    om.classes,
                    om.insts,
                    tid,
                    dm.skip(i as int),
                    dm.take(i as int),
                ),
            decreases props@.len() - i,
        {
            let d = &props[i];
            proof {
                assert(dm[i as int] == props@[i as int]@);
                assert(dm.skip(i as int)[0] == dm[i as int]);
            }
            if self.find_property(tid, &d.name).is_some() {
                return Err(RegistryError::DuplicateProperty);
            }
            if find_in_props_upto(&props, i, &d.name).is_some() {
                proof {
                    assert(dm.take(i as int) =~= props@.map_values(
                        |p: PropertyDescriptor| p@,
                    ).take(i as int));
                }
                return Err(RegistryError::DuplicateProperty);
            }
            proof {
                assert(dm.take(i as int) =~= props@.map_values(|p: PropertyDescriptor| p@).take(
                    i as int,
                ));
            }
            match self.prop_desc_ok(d) {
                Some(e) => {
                    return Err(e);
                },
                None => (),
            }
            proof {
                assert(dm.skip(i as int).drop_first() =~= dm.skip(i as int + 1));
                assert(dm.take(i as int).push(dm[i as int]) =~= dm.take(i as int + 1));
            }
            i = i + 1;
        }
        proof {
            assert(dm.skip(i as int) =~= Seq::<PropModel>::empty());
            assert(spec_check_props(om.classes, om.insts, tid, dm, Seq::empty()) is None);
        }
        let ghost target = ClassModel { props: om.classes[tid as int].props + dm, ..om.classes[tid as int] };
        proof {
            assert(dm.take(0) =~= Seq::<PropModel>::empty());
            assert(om.classes[tid as int].props + dm.take(0) =~= om.classes[tid as int].props);
            assert(ClassModel {
                props: om.classes[tid as int].props + dm.take(0),
                ..om.classes[tid as int]
            } =~= om.classes[tid as int]);
            assert(om.classes.update(tid as int, om.classes[tid as int]) =~= om.classes);
            assert(self@ =~= RtModel {
                classes: om.classes.update(
                    tid as int,
                    ClassModel {
                        props: om.classes[tid as int].props + dm.take(0),
                        ..om.classes[tid as int]
                    },
                ),
                ..om
            });
        }
        let mut k: usize = 0;
        while k < props.len()
            invariant
                k <= props@.len(),
                (tid as int) < om.classes.len(),
                self@.classes.len() == om.classes.len(),
                dm == props@.map_values(|p: PropertyDescriptor| p@),
                self@ == (RtModel {
                    classes: om.classes.update(
                        tid as int,
                        ClassModel {
                            props: om.classes[tid as int].props + dm.take(k as int),
                            ..om.classes[tid as int]
                        },
                    ),
                    ..om
                }),
            decreases props@.len() - k,
        {
            let ghost before = self@;
            let dup = props[k].duplicate();
            let ghost beforev = self.classes@;
            let c = &mut self.classes[tid];
            c.properties.push(dup);
            proof {
                assert(dm[k as int] == props@[k as int]@);
                assert(self.classes@ == beforev.update(tid as int, self.classes@[tid as int]));
                let cm2 = self.classes@[tid as int]@;
                assert(cm2.props =~= before.classes[tid as int].props.push(dm[k as int]));
                assert(cm2 =~= ClassModel {
                    props: om.classes[tid as int].props + dm.take(k as int + 1),
                    ..om.classes[tid as int]
                }) by {
                    assert(om.classes[tid as int].props + dm.take(k as int + 1) =~= (om.classes[tid
                        as int].props + dm.take(k as int)).push(dm[k as int]));
                }
                assert forall|x: int| 0 <= x < self@.classes.len() implies #[trigger] self@.classes[x]
                    == om.classes.update(
                    tid as int,
                    ClassModel {
                        props: om.classes[tid as int].props + dm.take(k as int + 1),
                        ..om.classes[tid as int]
                    },
                )[x] by {
                    assert(self@.classes[x] == self.classes@[x]@);
                    if x != tid as int {
                        assert(self.classes@[x] == beforev[x]);
                        assert(before.classes[x] == beforev[x]@);
                    }
                }
                assert(self@.classes =~= om.classes.update(
                    tid as int,
                    ClassModel {
                        props: om.classes[tid as int].props + dm.take(k as int + 1),
                        ..om.classes[tid as int]
                    },
                ));
                assert(self@ =~= RtModel {
                    classes: om.classes.update(
                        tid as int,
                        ClassModel {
                            props: om.classes[tid as int].props + dm.take(k as int + 1),
                            ..om.classes[tid as int]
                        },
                    ),
                    ..om
                });
            }
            k = k + 1;
        }
        proof {
            assert(dm.take(k as int) =~= dm);
            assert(self@ == RtModel {
                classes: om.classes.update(tid as int, target),
                ..om
            });
            let newc = self@.classes;
            assert(rt_wf(self@)) by {
                assert forall|i2: int|
                    0 <= i2 < newc.len() implies (#[trigger] newc[i2]).parent == om.classes[i2].parent
                    && newc[i2].interfaces == om.classes[i2].interfaces && newc[i2].sealed
                    == om.classes[i2].sealed && newc[i2].signals == om.classes[i2].signals by {}
                assert(classes_ordered(newc));
                assert(classes_chain_sealed(newc));
                assert forall|i2: int|
                    0 <= i2 < self@.insts.len() implies (#[trigger] self@.insts[i2]).values.len()
                    == spec_all_props(newc, self@.insts[i2].type_id).len() by {
                    let ty = self@.insts[i2].type_id;
                    assert(om.classes[ty as int].sealed);
                    if spec_is_ancestor(om.classes, ty, tid) {
                        lemma_chain_sealed(om.classes, ty, tid);
                    }
                    lemma_all_props_update_unrelated(om.classes, tid as int, target, ty);
                }
            }
        }
        Ok(())
    }

    /// Declares a signal on an unsealed type: name, flags, argument types,
    /// return type, optional class handler and optional accumulator. The
    /// name must be fresh on the type itself (a subtype may redeclare an
    /// ancestor's signal; the same type may not). A class handler must
    /// conform to the declared types.
    pub fn add_signal_full(
        &mut self,
        tid: usize,
        name: String,
        flags: SignalFlags,
        arg_types: Vec<ValueType>,
        return_type: Option<ValueType>,
        class_handler: Option<Handler>,
        accumulator: Option<Accumulator>,
    ) -> (r: Result<(), RegistryError>)
        requires
            old(self).wf(),
        ensures
            final(self).wf(),
            spec_add_signal_post(
                old(self)@,
                final(self)@,
                r,
                tid,
                SigModel {
                    name: name@,
                    flags,
                    args: arg_types@,
                    ret: return_type,
                    class_handler: opt_handler_view(class_handler),
                    accumulator,
                },
            ),
    {
        let ghost om = old(self)@;
        let ghost sm = SigModel {
            name: name@,
            flags,
            args: arg_types@,
            ret: return_type,
            class_handler: opt_handler_view(class_handler),
            accumulator,
        };
        if tid >= self.classes.len() {
            return Err(RegistryError::NotFound);
        }
        proof {
            assert(om.classes[tid as int] == self.classes@[tid as int]@);
        }
        if self.classes[tid].sealed {
            return Err(RegistryError::Sealed);
        }
        let sd = SignalDescriptor {
            name,
            flags,
            arg_types,
            return_type,
            class_handler,
            accumulator,
        };
        proof {
            assert(sd@ =~= sm);
        }
        if find_in_sigs(&self.classes[tid].signals, &sd.name).is_some() {
            return Err(RegistryError::DuplicateSignal);
        }
        match &sd.class_handler {
            Some(h) => {
                if !self.handler_conforms(tid, h, &sd) {
                    return Err(RegistryError::TypeMismatch);
                }
            },
            None => (),
        }
        let ghost target = ClassModel {
            signals: om.classes[tid as int].signals.push(sm),
            ..om.classes[tid as int]
        };
        let ghost beforev = self.classes@;
        let c = &mut self.classes[tid];
        c.signals.push(sd);
        proof {
            assert(self.classes@ == beforev.update(tid as int, self.classes@[tid as int]));
            let cm2 = self.classes@[tid as int]@;
            assert(cm2.signals =~= om.classes[tid as int].signals.push(sm));
            assert(cm2 =~= target);
            assert forall|x: int| 0 <= x < self@.classes.len() implies #[trigger] self@.classes[x]
                == om.classes.update(tid as int, target)[x] by {
                assert(self@.classes[x] == self.classes@[x]@);
                if x != tid as int {
                    assert(self.classes@[x] == beforev[x]);
                    assert(om.classes[x] == beforev[x]@);
                }
            }
            assert(self@.classes =~= om.classes.update(tid as int, target));
            assert(self@ =~= RtModel { classes: om.classes.update(tid as int, target), ..om });
            let newc = self@.classes;
            assert(rt_wf(self@)) by {
                assert forall|i2: int|
                    0 <= i2 < newc.len() implies (#[trigger] newc[i2]).parent == om.classes[i2].parent
                    && newc[i2].interfaces == om.classes[i2].interfaces && newc[i2].sealed
                    == om.classes[i2].sealed && newc[i2].props == om.classes[i2].props by {}
                assert(classes_ordered(newc));
                assert(classes_chain_sealed(newc));
                assert forall|i2: int|
                    0 <= i2 < self@.insts.len() implies (#[trigger] self@.insts[i2]).values.len()
                    == spec_all_props(newc, self@.insts[i2].type_id).len() by {
                    lemma_all_props_update_same(
                        om.classes,
                        tid as int,
                        target,
                        self@.insts[i2].type_id,
                    );
                }
                assert forall|i2: int| 0 <= i2 < self@.conns.len() implies {
                    let cn = #[trigger] self@.conns[i2];
                    (cn.sig_type as int) < newc.len() && (cn.sig_index as int) < newc[cn.sig_type
                        as int].signals.len() && (cn.instance as int) < self@.insts.len()
                } by {}
            }
        }
        Ok(())
    }

    /// Declares a plain signal: no class handler, no accumulator.
    pub fn add_signal(
        &mut self,
        tid: usize,
        name: String,
        flags: SignalFlags,
        arg_types: Vec<ValueType>,
        return_type: Option<ValueType>,
    ) -> (r: Result<(), RegistryError>)
        requires
            old(self).wf(),
        ensures
            final(self).wf(),
            spec_add_signal_post(
                old(self)@,
                final(self)@,
                r,
                tid,
                SigModel {
                    name: name@,
                    flags,
                    args: arg_types@,
                    ret: return_type,
                    class_handler: None,
                    accumulator: None,
                },
            ),
    {
        self.add_signal_full(tid, name, flags, arg_types, return_type, None, None)
    }

    /// Declares a signal with a class handler, called at its flag-determined
    /// position in every emission.
    pub fn add_signal_with_class_handler(
        &mut self,
        tid: usize,
        name: String,
        flags: SignalFlags,
        arg_types: Vec<ValueType>,
        return_type: Option<ValueType>,
        class_handler: Handler,
    ) -> (r: Result<(), RegistryError>)
        requires
            old(self).wf(),
        ensures
            final(self).wf(),
            spec_add_signal_post(
                old(self)@,
                final(self)@,
                r,
                tid,
                SigModel {
                    name: name@,
                    flags,
                    args: arg_types@,
                    ret: return_type,
                    class_handler: Some(class_handler@),
                    accumulator: None,
                },
            ),
    {
        self.add_signal_full(tid, name, flags, arg_types, return_type, Some(class_handler), None)
    }

    /// Declares a signal with an accumulator combining handler return
    /// values.
    pub fn add_signal_with_accumulator(
        &mut self,
        tid: usize,
        name: String,
        flags: SignalFlags,
        arg_types: Vec<ValueType>,
        return_type: Option<ValueType>,
        accumulator: Accumulator,
    ) -> (r: Result<(), RegistryError>)
        requires
            old(self).wf(),
        ensures
            final(self).wf(),
            spec_add_signal_post(
                old(self)@,
                final(self)@,
                r,
                tid,
                SigModel {
                    name: name@,
                    flags,
                    args: arg_types@,
                    ret: return_type,
                    class_handler: None,
                    accumulator: Some(accumulator),
                },
            ),
    {
        self.add_signal_full(tid, name, flags, arg_types, return_type, None, Some(accumulator))
    }

    /// Declares a signal with both a class handler and an accumulator.
    pub fn add_signal_with_class_handler_and_accumulator(
        &mut self,
        tid: usize,
        name: String,
        flags: SignalFlags,
        arg_types: Vec<ValueType>,
        return_type: Option<ValueType>,
        class_handler: Handler,
        accumulator: Accumulator,
    ) -> (r: Result<(), RegistryError>)
        requires
            old(self).wf(),
        ensures
            final(self).wf(),
            spec_add_signal_post(
                old(self)@,
                final(self)@,
                r,
                tid,
                SigModel {
                    name: name@,
                    flags,
                    args: arg_types@,
                    ret: return_type,
                    class_handler: Some(class_handler@),
                    accumulator: Some(accumulator),
                },
            ),
    {
        self.add_signal_full(
            tid,
            name,
            flags,
            arg_types,
            return_type,
            Some(class_handler),
            Some(accumulator),
        )
    }
}

} // verus!
