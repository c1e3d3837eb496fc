//! Instance construction: validation of the supplied construct properties,
//! default values, the constructed hook, and sealing of the class chain.

use vstd::prelude::*;

use crate::errors::{ConstructError, PropertyError};
use crate::resolve::{
    classes_chain_sealed, classes_ordered, lemma_ancestor_step, lemma_find_prop_in,
    lemma_seal_chain_char, rt_wf, seal_of, spec_all_props, spec_find_prop, spec_is_ancestor,
    spec_seal_chain,
};
use crate::runtime::{
    classes_views, ClassMetadata, ClassModel, InstanceSlot, InstModel, PropertyDescriptor, RtModel,
    Runtime,
};
use crate::validate::spec_validate_property;
use crate::values::{vals_view, ValModel, Value, ValueType};

verus! {

/// The default values of a descriptor list, in order.
pub open spec fn spec_defaults(props: Seq<crate::runtime::PropModel>) -> Seq<ValModel> {
    props.map_values(|p: crate::runtime::PropModel| p.default)
}

/// The name and value views of supplied construct properties.
pub open spec fn pairs_view(s: Seq<(String, Value)>) -> Seq<(Seq<char>, ValModel)> {
    s.map_values(|p: (String, Value)| (p.0@, p.1@))
}

/// How a property-validation failure surfaces during construction.
pub open spec fn prop_err_to_ctor(e: PropertyError) -> ConstructError {
    match e {
        PropertyError::NotFound => ConstructError::UnknownProperty,
        PropertyError::NotWritable => ConstructError::NotWritable,
        PropertyError::NotReadable => ConstructError::TypeMismatch,
        PropertyError::TypeMismatch => ConstructError::TypeMismatch,
        PropertyError::ValidationFailed => ConstructError::ValidationFailed,
    }
}

/// Validates the supplied construct properties in order against type `tid`
/// (construct-only properties are writable here): each name must resolve
/// and each value must pass full validation. On success, the resolved flat
/// indices and the values as they will be stored.
pub open spec fn spec_check_ctor_props(
    classes: Seq<ClassModel>,
    insts: Seq<InstModel>,
    tid: usize,
    pairs: Seq<(Seq<char>, ValModel)>,
) -> Result<Seq<(int, ValModel)>, ConstructError>
    decreases pairs.len(),
{
    if pairs.len() == 0 {
        Ok(Seq::empty())
    } else {
        let nm = pairs[0].0;
        let v = pairs[0].1;
        match spec_find_prop(classes, tid, nm) {
            None => Err(ConstructError::UnknownProperty),
            Some(i) => match spec_validate_property(
                classes,
                insts,
                spec_all_props(classes, tid)[i],
                true,
                v,
            ) {
                Err(e) => Err(prop_err_to_ctor(e)),
                Ok(v2) => match spec_check_ctor_props(classes, insts, tid, pairs.drop_first()) {
                    Ok(rest) => Ok(seq![(i, v2)] + rest),
                    Err(e) => Err(e),
                },
            },
        }
    }
}

/// Pointwise characterization of construct-property validation.
pub proof fn lemma_check_ctor_char(
    classes: Seq<ClassModel>,
    insts: Seq<InstModel>,
    tid: usize,
    pairs: Seq<(Seq<char>, ValModel)>,
)
    ensures
        match spec_check_ctor_props(classes, insts, tid, pairs) {
            Ok(rs) => rs.len() == pairs.len() && (forall|j: int|
                0 <= j < pairs.len() ==> spec_find_prop(classes, tid, pairs[j].0) == Some(
                    (#[trigger] rs[j]).0,
                ) && spec_validate_property(
                    classes,
                    insts,
                    spec_all_props(classes, tid)[rs[j].0],
                    true,
                    pairs[j].1,
                ) == Ok::<ValModel, PropertyError>(rs[j].1)),
            Err(e) => exists|i: int|
                0 <= i < pairs.len() && (forall|j: int|
                    0 <= j < i ==> (#[trigger] spec_find_prop(classes, tid, pairs[j].0)) is Some
                        && spec_validate_property(
                        classes,
                        insts,
                        spec_all_props(classes, tid)[spec_find_prop(
                            classes,
                            tid,
                            pairs[j].0,
                        )->Some_0],
                        true,
                        pairs[j].1,
                    ) is Ok) && #[trigger] spec_ctor_pair_err(classes, insts, tid, pairs[i]) == Some(
                    e,
                ),
        },
    decreases pairs.len(),
{
    if pairs.len() > 0 {
        let nm = pairs[0].0;
        let v = pairs[0].1;
        match spec_find_prop(classes, tid, nm) {
            None => {
                assert(spec_ctor_pair_err(classes, insts, tid, pairs[0]) == Some(
                    ConstructError::UnknownProperty,
                ));
            },
            Some(i) => {
                match spec_validate_property(
                    classes,
                    insts,
                    spec_all_props(classes, tid)[i],
                    true,
                    v,
                ) {
                    Err(e0) => {
                        assert(spec_ctor_pair_err(classes, insts, tid, pairs[0]) == Some(
                            prop_err_to_ctor(e0),
                        ));
                    },
                    Ok(v2) => {
                        lemma_check_ctor_char(classes, insts, tid, pairs.drop_first());
                        assert(forall|j: int|
                            0 <= j < pairs.len() - 1 ==> #[trigger] pairs.drop_first()[j] == pairs[
                                j + 1
                            ]);
                        match spec_check_ctor_props(classes, insts, tid, pairs.drop_first()) {
                            Ok(rest) => {
                                let rs = seq![(i, v2)] + rest;
                                assert forall|j: int| 0 <= j < pairs.len() implies spec_find_prop(
                                    classes,
                                    tid,
                                    pairs[j].0,
                                ) == Some((#[trigger] rs[j]).0) && spec_validate_property(
                                    classes,
                                    insts,
                                    spec_all_props(classes, tid)[rs[j].0],
                                    true,
                                    pairs[j].1,
                                ) == Ok::<ValModel, PropertyError>(rs[j].1) by {
                                    if j >= 1 {
                                        assert(rs[j] == rest[j - 1]);
                                        assert(pairs.drop_first()[j - 1] == pairs[j]);
                                    }
                                }
                            },
                            Err(e) => {
                                let i0 = choose|i0: int|
                                    0 <= i0 < pairs.drop_first().len() && (forall|j: int|
                                        0 <= j < i0 ==> (#[trigger] spec_find_prop(
                                            classes,
                                            tid,
                                            pairs.drop_first()[j].0,
                                        )) is Some && spec_validate_property(
                                            classes,
                                            insts,
                                            spec_all_props(classes, tid)[spec_find_prop(
                                                classes,
                                                tid,
                                                pairs.drop_first()[j].0,
                                            )->Some_0],
                                            true,
                                            pairs.drop_first()[j].1,
                                        ) is Ok) && #[trigger] spec_ctor_pair_err(
                                        classes,
                                        insts,
                                        tid,
                                        pairs.drop_first()[i0],
                                    ) == Some(e);
                                assert(pairs.drop_first()[i0] == pairs[i0 + 1]);
                                assert forall|j: int|
                                    0 <= j < i0 + 1 implies (#[trigger] spec_find_prop(
                                    classes,
                                    tid,
                                    pairs[j].0,
                                )) is Some && spec_validate_property(
                                    classes,
                                    insts,
                                    spec_all_props(classes, tid)[spec_find_prop(
                                        classes,
                                        tid,
                                        pairs[j].0,
                                    )->Some_0],
                                    true,
                                    pairs[j].1,
                                ) is Ok by {
                                    if j >= 1 {
                                        assert(pairs.drop_first()[j - 1] == pairs[j]);
                                    }
                                }
                                assert(0 <= i0 + 1 < pairs.len() && spec_ctor_pair_err(
                                    classes,
                                    insts,
                                    tid,
                                    pairs[i0 + 1],
                                ) == Some(e));
                            },
                        }
                    },
                }
            },
        }
    }
}

/// The error one supplied construct property gives on its own, if any.
pub open spec fn spec_ctor_pair_err(
    classes: Seq<ClassModel>,
    insts: Seq<InstModel>,
    tid: usize,
    pair: (Seq<char>, ValModel),
) -> Option<ConstructError> {
    match spec_find_prop(classes, tid, pair.0) {
        None => Some(ConstructError::UnknownProperty),
        Some(i) => match spec_validate_property(
            classes,
            insts,
            spec_all_props(classes, tid)[i],
            true,
            pair.1,
        ) {
            Err(e) => Some(prop_err_to_ctor(e)),
            Ok(_) => None,
        },
    }
}

/// The value table after the resolved construct properties are stored, in
/// order.
pub open spec fn spec_apply_pairs(values: Seq<ValModel>, ps: Seq<(int, ValModel)>) -> Seq<ValModel>
    decreases ps.len(),
{
    if ps.len() == 0 {
        values
    } else {
        spec_apply_pairs(values.update(ps[0].0, ps[0].1), ps.drop_first())
    }
}

/// Storing one more resolved property is one more update.
pub proof fn lemma_apply_pairs_push(
    values: Seq<ValModel>,
    ps: Seq<(int, ValModel)>,
    p: (int, ValModel),
)
    ensures
        spec_apply_pairs(values, ps.push(p)) == spec_apply_pairs(values, ps).update(p.0, p.1),
    decreases ps.len(),
{
    if ps.len() == 0 {
        assert(ps.push(p).drop_first() =~= Seq::<(int, ValModel)>::empty());
        assert(ps.push(p)[0] == p);
        assert(spec_apply_pairs(
            values.update(p.0, p.1),
            Seq::<(int, ValModel)>::empty(),
        ) == values.update(p.0, p.1));
        assert(spec_apply_pairs(values, ps) == values);
    } else {
        assert(ps.push(p)[0] == ps[0]);
        assert(ps.push(p).drop_first() =~= ps.drop_first().push(p));
        lemma_apply_pairs_push(values.update(ps[0].0, ps[0].1), ps.drop_first(), p);
        assert(spec_apply_pairs(values, ps) == spec_apply_pairs(
            values.update(ps[0].0, ps[0].1),
            ps.drop_first(),
        ));
    }
}

/// The value table after the constructed hooks of the chain starting at
/// `cur` ran: each hook names a boolean property that is set to `true`.
pub open spec fn spec_apply_markers(
    classes: Seq<ClassModel>,
    tid: usize,
    cur: usize,
    values: Seq<ValModel>,
) -> Seq<ValModel>
    decreases cur,
{
    if !((cur as int) < classes.len()) {
        values
    } else {
        let v1 = match classes[cur as int].constructed_marker {
            Some(m) => match spec_find_prop(classes, tid, m) {
                Some(i) => if spec_all_props(classes, tid)[i].ty == ValueType::Bool {
                    values.update(i, ValModel::Bool(true))
                } else {
                    values
                },
                None => values,
            },
            None => values,
        };
        match classes[cur as int].parent {
            Some(p) => if p < cur {
                spec_apply_markers(classes, tid, p, v1)
            } else {
                v1
            },
            None => v1,
        }
    }
}

/// Whether construction of an instance of `tid` with the given properties
/// fails, and how.
pub open spec fn spec_ctor_err(
    classes: Seq<ClassModel>,
    insts: Seq<InstModel>,
    tid: usize,
    pairs: Seq<(Seq<char>, ValModel)>,
) -> Option<ConstructError> {
    if !((tid as int) < classes.len()) {
        Some(ConstructError::NotFound)
    } else if !classes[tid as int].instantiable {
        Some(ConstructError::NotInstantiable)
    } else if classes[tid as int].is_abstract {
        Some(ConstructError::AbstractType)
    } else {
        match spec_check_ctor_props(classes, insts, tid, pairs) {
            Err(e) => Some(e),
            Ok(_) => None,
        }
    }
}

/// The value table of a newly constructed instance: defaults, then the
/// supplied construct properties, then the constructed hooks.
pub open spec fn spec_new_instance_values(
    classes: Seq<ClassModel>,
    insts: Seq<InstModel>,
    tid: usize,
    pairs: Seq<(Seq<char>, ValModel)>,
) -> Seq<ValModel> {
    let resolved = spec_check_ctor_props(classes, insts, tid, pairs)->Ok_0;
    spec_apply_markers(
        classes,
        tid,
        tid,
        spec_apply_pairs(spec_defaults(spec_all_props(classes, tid)), resolved),
    )
}

/// The flattened property list depends only on property tables and parent
/// pointers.
pub proof fn lemma_all_props_same_fields(c1: Seq<ClassModel>, c2: Seq<ClassModel>, s: usize)
    requires
        c1.len() == c2.len(),
        forall|i: int|
            0 <= i < c1.len() ==> (#[trigger] c2[i]).props == c1[i].props && c2[i].parent
                == c1[i].parent,
    ensures
        spec_all_props(c2, s) == spec_all_props(c1, s),
    decreases s,
{
    if (s as int) < c1.len() {
        match c1[s as int].parent {
            Some(p) => if p < s {
                lemma_all_props_same_fields(c1, c2, p);
            },
            None => (),
        }
    }
}

/// Seals the class chain of `t` in place.
fn seal_classes_chain(classes: &mut Vec<ClassMetadata>, t: usize)
    requires
        (t as int) < old(classes)@.len(),
        classes_ordered(classes_views(old(classes)@)),
    ensures
        classes_views(final(classes)@) == spec_seal_chain(classes_views(old(classes)@), t),
    decreases t,
{
    let ghost cv0 = classes_views(classes@);
    let parent = classes[t].parent;
    proof {
        assert(cv0[t as int] == classes@[t as int]@);
    }
    let ghost beforev = classes@;
    {
        let c = &mut classes[t];
        c.sealed = true;
    }
    let ghost cv1 = classes_views(classes@);
    proof {
        assert forall|x: int| 0 <= x < cv1.len() implies #[trigger] cv1[x] == cv0.update(
            t as int,
            seal_of(cv0[t as int]),
        )[x] by {
            assert(cv1[x] == classes@[x]@);
            if x != t as int {
                assert(classes@[x] == beforev[x]);
                assert(cv0[x] == beforev[x]@);
            } else {
                assert(classes@[t as int]@ =~= seal_of(cv0[t as int]));
            }
        }
        assert(cv1 =~= cv0.update(t as int, seal_of(cv0[t as int])));
        assert(classes_ordered(cv1)) by {
            assert(forall|i: int| 0 <= i < cv0.len() ==> (#[trigger] cv1[i]).parent == cv0[i].parent);
            assert(forall|i: int|
                0 <= i < cv0.len() ==> (#[trigger] cv1[i]).interfaces == cv0[i].interfaces);
        }
    }
    match parent {
        Some(p) => {
            proof {
                assert(cv0[t as int].parent == Some(p));
                assert((p as int) < t as int);
            }
            seal_classes_chain(classes, p);
            proof {
                assert(classes_views(classes@) == spec_seal_chain(cv1, p));
                assert(spec_seal_chain(cv0, t) == spec_seal_chain(cv1, p));
            }
        },
        None => {
            proof {
                assert(cv0[t as int].parent is None);
                assert(spec_seal_chain(cv0, t) == cv1);
            }
        },
    }
}

/// A first failing construct property determines the validation result.
pub proof fn lemma_ctor_first_failure(
    classes: Seq<ClassModel>,
    insts: Seq<InstModel>,
    tid: usize,
    pairs: Seq<(Seq<char>, ValModel)>,
    i: int,
    e: ConstructError,
)
    requires
        0 <= i < pairs.len(),
        forall|j: int|
            0 <= j < i ==> spec_ctor_pair_err(classes, insts, tid, #[trigger] pairs[j]) is None,
        spec_ctor_pair_err(classes, insts, tid, pairs[i]) == Some(e),
    ensures
        spec_check_ctor_props(classes, insts, tid, pairs) == Err::<Seq<(int, ValModel)>, _>(e),
    decreases i,
{
    if i == 0 {
    } else {
        assert(spec_ctor_pair_err(classes, insts, tid, pairs[0]) is None);
        assert(forall|j: int|
            0 <= j < pairs.len() - 1 ==> #[trigger] pairs.drop_first()[j] == pairs[j + 1]);
        assert forall|j: int|
            0 <= j < i - 1 implies spec_ctor_pair_err(
            classes,
            insts,
            tid,
            #[trigger] pairs.drop_first()[j],
        ) is None by {
            assert(pairs.drop_first()[j] == pairs[j + 1]);
        }
        assert(pairs.drop_first()[i - 1] == pairs[i]);
        lemma_ctor_first_failure(classes, insts, tid, pairs.drop_first(), i - 1, e);
    }
}

/// The exec mapping of a property-validation failure during construction.
fn ctor_err_of(e: PropertyError) -> (r: ConstructError)
    ensures
        r == prop_err_to_ctor(e),
{
    match e {
        PropertyError::NotFound => ConstructError::UnknownProperty,
        PropertyError::NotWritable => ConstructError::NotWritable,
        PropertyError::NotReadable => ConstructError::TypeMismatch,
        PropertyError::TypeMismatch => ConstructError::TypeMismatch,
        PropertyError::ValidationFailed => ConstructError::ValidationFailed,
    }
}

impl Runtime {
    /// Constructs an instance of `tid` with the supplied construct
    /// properties. Validates that the type is registered, instantiable and
    /// concrete and that every supplied property resolves, is writable (or
    /// construct-only) and fits; on any failure nothing changes and no
    /// partially constructed instance is ever visible. On success the
    /// instance starts from the declared defaults, stores the supplied
    /// values, runs the constructed hooks of its class chain, starts with
    /// one owned reference (floating for initially-unowned types), and the
    /// whole class chain is sealed.
    pub fn new_instance(&mut self, tid: usize, props: Vec<(String, Value)>) -> (r: Result<
        usize,
        ConstructError,
    >)
        requires
            old(self).wf(),
        ensures
            final(self).wf(),
            ({
                let om = old(self)@;
                let pm = pairs_view(props@);
                match r {
                    Ok(iid) => spec_ctor_err(om.classes, om.insts, tid, pm) is None && iid
                        == om.insts.len() && final(self)@ == (RtModel {
                        classes: spec_seal_chain(om.classes, tid),
                        insts: om.insts.push(
                            InstModel {
                                alive: true,
                                type_id: tid,
                                ref_count: 1,
                                floating: om.classes[tid as int].initially_unowned,
                                values: spec_new_instance_values(om.classes, om.insts, tid, pm),
                            },
                        ),
                        ..om
                    }),
                    Err(e) => spec_ctor_err(om.classes, om.insts, tid, pm) == Some(e)
                        && final(self)@ == om,
                }
            }),
    {
        let ghost om = self@;
        let ghost pm = pairs_view(props@);
        if tid >= self.classes.len() {
            return Err(ConstructError::NotFound);
        }
        proof {
            assert(om.classes[tid as int] == self.classes@[tid as int]@);
        }
        if !self.classes[tid].instantiable {
            return Err(ConstructError::NotInstantiable);
        }
        if self.classes[tid].is_abstract {
            return Err(ConstructError::AbstractType);
        }
        let floating = self.classes[tid].initially_unowned;
        let mut values: Vec<Value> = self.collect_defaults(tid);
        let nvals = values.len();
        let ghost all = spec_all_props(om.classes, tid);
        proof {
            assert(vals_view(values@).len() == values@.len());
            assert(spec_defaults(all).len() == all.len());
            assert(all.len() == values@.len());
            assert(all.len() == nvals as int);
        }
        let mut resolved: Vec<(usize, Value)> = Vec::new();
        let mut i: usize = 0;
        while i < props.len()
            invariant
                self.wf(),
                self@ == om,
                (tid as int) < om.classes.len(),
                all == spec_all_props(om.classes, tid),
                all.len() <= usize::MAX,
                om.classes[tid as int].instantiable,
                !om.classes[tid as int].is_abstract,
                pm == pairs_view(props@),
                pm.len() == props@.len(),
                i <= props@.len(),
                resolved@.len() == i,
                forall|j: int|
                    0 <= j < i ==> spec_ctor_pair_err(om.classes, om.insts, tid, #[trigger] pm[j])
                        is None,
                forall|j: int|
                    0 <= j < i ==> spec_find_prop(om.classes, tid, pm[j].0) == Some(
                        (#[trigger] resolved@[j]).0 as int,
                    ) && spec_validate_property(
                        om.classes,
                        om.insts,
                        all[resolved@[j].0 as int],
                        true,
                        pm[j].1,
                    ) == Ok::<ValModel, PropertyError>(resolved@[j].1@),
            decreases props@.len() - i,
        {
            proof {
                assert(pm[i as int] == (props@[i as int].0@, props@[i as int].1@));
            }
            let name = &props[i].0;
            let value = &props[i].1;
            match self.find_prop_index(tid, name) {
                None => {
                    proof {
                        assert(spec_ctor_pair_err(om.classes, om.insts, tid, pm[i as int]) == Some(
                            ConstructError::UnknownProperty,
                        ));
                        lemma_ctor_first_failure(
                            om.classes,
                            om.insts,
                            tid,
                            pm,
                            i as int,
                            ConstructError::UnknownProperty,
                        );
                    }
                    return Err(ConstructError::UnknownProperty);
                },
                Some(idx) => {
                    let d = match self.find_property(tid, name) {
                        Some(d) => d,
                        None => {
                            proof {
                                assert(false);
                            }
                            return Err(ConstructError::UnknownProperty);
                        },
                    };
                    proof {
                        assert(d@ == all[idx as int]);
                    }
                    match self.validate_property_value(&d, true, value) {
                        Err(e) => {
                            proof {
                                assert(spec_ctor_pair_err(om.classes, om.insts, tid, pm[i as int])
                                    == Some(prop_err_to_ctor(e)));
                                lemma_ctor_first_failure(
                                    om.classes,
                                    om.insts,
                                    tid,
                                    pm,
                                    i as int,
                                    prop_err_to_ctor(e),
                                );
                            }
                            return Err(ctor_err_of(e));
                        },
                        Ok(v2) => {
                            resolved.push((idx, v2));
                            proof {
                                assert(spec_ctor_pair_err(om.classes, om.insts, tid, pm[i as int])
                                    is None);
                            }
                        },
                    }
                },
            }
            i = i + 1;
        }
        let ghost rsm = spec_check_ctor_props(om.classes, om.insts, tid, pm)->Ok_0;
        proof {
            lemma_check_ctor_char(om.classes, om.insts, tid, pm);
            match spec_check_ctor_props(om.classes, om.insts, tid, pm) {
                Ok(_) => {},
                Err(e) => {
                    let i0 = choose|i0: int|
                        0 <= i0 < pm.len() && (forall|j: int|
                            0 <= j < i0 ==> (#[trigger] spec_find_prop(om.classes, tid, pm[j].0))
                                is Some && spec_validate_property(
                                om.classes,
                                om.insts,
                                spec_all_props(om.classes, tid)[spec_find_prop(
                                    om.classes,
                                    tid,
                                    pm[j].0,
                                )->Some_0],
                                true,
                                pm[j].1,
                            ) is Ok) && #[trigger] spec_ctor_pair_err(
                            om.classes,
                            om.insts,
                            tid,
                            pm[i0],
                        ) == Some(e);
                    assert(spec_ctor_pair_err(om.classes, om.insts, tid, pm[i0]) is None);
                },
            }
            assert(spec_check_ctor_props(om.classes, om.insts, tid, pm) is Ok);
            assert(rsm.len() == resolved@.len());
            assert forall|j: int| 0 <= j < rsm.len() implies #[trigger] rsm[j] == (resolved@[j].0
                as int, resolved@[j].1@) by {
                assert(spec_find_prop(om.classes, tid, pm[j].0) == Some(rsm[j].0));
                assert(spec_find_prop(om.classes, tid, pm[j].0) == Some(resolved@[j].0 as int));
                assert(spec_validate_property(om.classes, om.insts, all[rsm[j].0], true, pm[j].1)
                    == Ok::<ValModel, PropertyError>(rsm[j].1));
                assert(spec_validate_property(
                    om.classes,
                    om.insts,
                    all[resolved@[j].0 as int],
                    true,
                    pm[j].1,
                ) == Ok::<ValModel, PropertyError>(resolved@[j].1@));
            }
            assert forall|j: int| 0 <= j < rsm.len() implies 0 <= (#[trigger] rsm[j]).0
                < all.len() by {
                lemma_find_prop_in(all, pm[j].0);
            }
        }
        // Store the validated construct values over the defaults.
        let mut k: usize = 0;
        while k < resolved.len()
            invariant
                resolved@.len() == rsm.len(),
                forall|j: int| 0 <= j < rsm.len() ==> #[trigger] rsm[j] == (resolved@[j].0
                    as int, resolved@[j].1@),
                forall|j: int| 0 <= j < rsm.len() ==> 0 <= (#[trigger] rsm[j]).0 < all.len(),
                k <= resolved@.len(),
                values@.len() == all.len(),
                vals_view(values@) == spec_apply_pairs(spec_defaults(all), rsm.take(k as int)),
            decreases resolved@.len() - k,
        {
            let ghost beforevals = vals_view(values@);
            let ix = resolved[k].0;
            let v2 = resolved[k].1.duplicate();
            proof {
                assert(rsm[k as int] == (resolved@[k as int].0 as int, resolved@[k as int].1@));
                assert((ix as int) < all.len());
            }
            values[ix] = v2;
            proof {
                assert forall|x: int| 0 <= x < values@.len() implies vals_view(values@)[x]
                    == beforevals.update(ix as int, rsm[k as int].1)[x] by {
                    assert(vals_view(values@)[x] == values@[x]@);
                }
                assert(vals_view(values@) =~= beforevals.update(ix as int, rsm[k as int].1));
                assert(rsm.take(k as int + 1) =~= rsm.take(k as int).push(rsm[k as int]));
                lemma_apply_pairs_push(spec_defaults(all), rsm.take(k as int), rsm[k as int]);
            }
            k = k + 1;
        }
        proof {
            assert(rsm.take(rsm.len() as int) =~= rsm);
        }
        // Run the constructed hooks of the class chain.
        let ghost target = spec_apply_markers(om.classes, tid, tid, vals_view(values@));
        let mut cur: usize = tid;
        loop
            invariant
                self.wf(),
                self@ == om,
                (tid as int) < om.classes.len(),
                (cur as int) < om.classes.len(),
                all == spec_all_props(om.classes, tid),
                all.len() <= usize::MAX,
                values@.len() == all.len(),
                target == spec_apply_markers(om.classes, tid, cur, vals_view(values@)),
            ensures
                values@.len() == all.len(),
                target == vals_view(values@),
            decreases cur,
        {
            let c = &self.classes[cur];
            let ghost cm = om.classes[cur as int];
            let ghost beforevals = vals_view(values@);
            proof {
                assert(cm == self.classes@[cur as int]@);
            }
            match &c.constructed_marker {
                Some(m) => {
                    match self.find_prop_index(tid, m) {
                        Some(ix) => {
                            let d = match self.find_property(tid, m) {
                                Some(d) => d,
                                None => {
                                    proof {
                                        assert(false);
                                    }
                                    return Err(ConstructError::NotFound);
                                },
                            };
                            proof {
                                assert(d@ == all[ix as int]);
                                lemma_find_prop_in(all, m@);
                            }
                            if matches!(d.value_type, ValueType::Bool) {
                                values[ix] = Value::Bool(true);
                                proof {
                                    assert forall|x: int|
                                        0 <= x < values@.len() implies vals_view(values@)[x]
                                        == beforevals.update(ix as int, ValModel::Bool(true))[x] by {
                                        assert(vals_view(values@)[x] == values@[x]@);
                                    }
                                    assert(vals_view(values@) =~= beforevals.update(
                                        ix as int,
                                        ValModel::Bool(true),
                                    ));
                                }
                            }
                        },
                        None => (),
                    }
                },
                None => (),
            }
            match c.parent {
                Some(p) => {
                    proof {
                        assert(cm.parent matches Some(q) && q == p);
                        assert((p as int) < cur as int);
                        assert(target == spec_apply_markers(om.classes, tid, p, vals_view(values@)));
                    }
                    cur = p;
                },
                None => {
                    proof {
                        assert(target == vals_view(values@));
                    }
                    break ;
                },
            }
        }
        // Seal the chain and publish the instance.
        proof {
            assert(target == spec_new_instance_values(om.classes, om.insts, tid, pm));
        }
        let iid = self.instances.len();
        proof {
            assert(classes_views(self.classes@) == om.classes);
        }
        seal_classes_chain(&mut self.classes, tid);
        self.instances.push(
            InstanceSlot { alive: true, type_id: tid, ref_count: 1, floating, values },
        );
        proof {
            let sealed = spec_seal_chain(om.classes, tid);
            lemma_seal_chain_char(om.classes, tid);
            let im = InstModel {
                alive: true,
                type_id: tid,
                ref_count: 1,
                floating: om.classes[tid as int].initially_unowned,
                values: spec_new_instance_values(om.classes, om.insts, tid, pm),
            };
            assert(spec_is_ancestor(om.classes, tid, tid));
            assert(self@.classes == sealed);
            assert forall|x: int| 0 <= x < self@.insts.len() implies #[trigger] self@.insts[x]
                == om.insts.push(im)[x] by {
                assert(self@.insts[x] == self.instances@[x]@);
                if x < om.insts.len() {
                    assert(om.insts[x] == self.instances@[x]@);
                } else {
                    assert(self.instances@[x]@ =~= im);
                }
            }
            assert(self@.insts =~= om.insts.push(im));
            assert(self@ =~= RtModel { classes: sealed, insts: om.insts.push(im), ..om });
            assert forall|x: int|
                0 <= x < sealed.len() implies (#[trigger] sealed[x]).parent == om.classes[x].parent
                && sealed[x].interfaces == om.classes[x].interfaces && sealed[x].props
                == om.classes[x].props && sealed[x].signals == om.classes[x].signals && (
            om.classes[x].sealed ==> sealed[x].sealed) by {
                assert(sealed[x] == (if spec_is_ancestor(om.classes, tid, x as usize) {
                    seal_of(om.classes[x])
                } else {
                    om.classes[x]
                }));
            }
            assert(rt_wf(self@)) by {
                assert(classes_ordered(sealed));
                assert(classes_chain_sealed(sealed)) by {
                    assert forall|x: int|
                        0 <= x < sealed.len() && (#[trigger] sealed[x]).sealed implies (
                    sealed[x].parent matches Some(q) ==> sealed[q as int].sealed) by {
                        match sealed[x].parent {
                            Some(q) => {
                                assert((q as int) < x);
                                if spec_is_ancestor(om.classes, tid, x as usize) {
                                    lemma_ancestor_step(om.classes, tid, x as usize, q);
                                    assert(sealed[q as int] == seal_of(om.classes[q as int]));
                                } else {
                                    assert(om.classes[x].sealed);
                                    assert(om.classes[q as int].sealed);
                                }
                            },
                            None => (),
                        }
                    }
                }
                assert(sealed[tid as int].sealed);
                assert forall|x: int|
                    0 <= x < self@.insts.len() implies {
                    let s = #[trigger] self@.insts[x];
                    &&& (s.type_id as int) < self@.classes.len()
                    &&& self@.classes[s.type_id as int].sealed
                    &&& s.values.len() == spec_all_props(self@.classes, s.type_id).len()
                    &&& (s.alive <==> s.ref_count >= 1)
                    &&& (!s.alive ==> !s.floating)
                } by {
                    let s = self@.insts[x];
                    lemma_all_props_same_fields(om.classes, sealed, s.type_id);
                    if x < om.insts.len() {
                        assert(s == om.insts[x]);
                    } else {
                        assert(s == im);
                        assert(im.values.len() == all.len());
                    }
                }
            }
        }
        Ok(iid)
    }

    /// Collects the default values of all properties of type `t`, in the
    /// flattened descriptor order.
    fn collect_defaults(&self, t: usize) -> (r: Vec<Value>)
        requires
            self.wf(),
            (t as int) < self@.classes.len(),
        ensures
            vals_view(r@) == spec_defaults(spec_all_props(self@.classes, t)),
    {
        let ghost all = spec_all_props(self@.classes, t);
        let mut out: Vec<Value> = Vec::new();
        let mut cur: usize = t;
        let ghost mut done: Seq<crate::runtime::PropModel> = Seq::empty();
        proof {
            assert(all =~= done + spec_all_props(self@.classes, cur));
        }
        loop
            invariant
                self.wf(),
                (cur as int) < self@.classes.len(),
                all == spec_all_props(self@.classes, t),
                all == done + spec_all_props(self@.classes, cur),
                out@.len() == done.len(),
                forall|k: int| 0 <= k < out@.len() ==> #[trigger] out@[k]@ == done[k].default,
            decreases cur,
        {
            let c = &self.classes[cur];
            let ghost cm = self@.classes[cur as int];
            let ghost own = cm.props;
            let ghost rest = match cm.parent {
                Some(p) => if p < cur {
                    spec_all_props(self@.classes, p)
                } else {
                    Seq::empty()
                },
                None => Seq::empty(),
            };
            proof {
                assert(cm == self.classes@[cur as int]@);
                assert(own == c.properties@.map_values(|p: PropertyDescriptor| p@));
                assert(spec_all_props(self@.classes, cur) == own + rest);
            }
            let mut j: usize = 0;
            while j < c.properties.len()
                invariant
                    j <= c.properties@.len(),
                    own == c.properties@.map_values(|p: PropertyDescriptor| p@),
                    out@.len() == done.len() + j,
                    forall|k: int|
                        0 <= k < out@.len() ==> #[trigger] out@[k]@ == (done + own.take(
                            j as int,
                        ))[k].default,
                decreases c.properties@.len() - j,
            {
                out.push(c.properties[j].default.duplicate());
                proof {
                    assert(own[j as int] == c.properties@[j as int]@);
                    assert forall|k: int| 0 <= k < out@.len() implies #[trigger] out@[k]@ == (done
                        + own.take(j as int + 1))[k].default by {
                        if k < done.len() + j {
                            assert((done + own.take(j as int + 1))[k] == (done + own.take(
                                j as int,
                            ))[k]);
                        } else {
                            assert((done + own.take(j as int + 1))[k] == own[j as int]);
                        }
                    }
                }
                j = j + 1;
            }
            proof {
                assert(own.take(own.len() as int) =~= own);
                let done2 = done + own;
                assert(all =~= done2 + rest);
                done = done2;
            }
            match c.parent {
                Some(p) => {
                    proof {
                        assert(cm.parent matches Some(q) && q == p);
                        assert((p as int) < cur as int);
                        assert(all == done + spec_all_props(self@.classes, p));
                    }
                    cur = p;
                },
                None => {
                    proof {
                        assert(rest =~= Seq::<crate::runtime::PropModel>::empty());
                        assert(all =~= done);
                        assert forall|k: int|
                            0 <= k < out@.len() implies vals_view(out@)[k] == spec_defaults(
                            all,
                        )[k] by {
                            assert(vals_view(out@)[k] == out@[k]@);
                            assert(spec_defaults(all)[k] == all[k].default);
                        }
                        assert(vals_view(out@) =~= spec_defaults(all));
                    }
                    return out;
                },
            }
        }
    }
}

} // verus!
