//! Executable name lookup on the registry: property and signal resolution
//! along the class chain.

use vstd::prelude::*;

use crate::resolve::{
    lemma_find_prop_in, lemma_find_prop_in_concat, lemma_find_sig_in, spec_all_props,
    spec_find_prop, spec_find_prop_in, spec_find_sig_in, spec_find_signal,
};
use crate::runtime::{PropModel, PropertyDescriptor, Runtime, SigModel, SignalDescriptor};
use crate::values::ValueType;

verus! {

/// The first match determines the search result.
pub proof fn lemma_find_prop_in_first(props: Seq<PropModel>, name: Seq<char>, i: int)
    requires
        0 <= i < props.len(),
        props[i].name == name,
        forall|j: int| 0 <= j < i ==> props[j].name != name,
    ensures
        spec_find_prop_in(props, name) == Some(i),
    decreases i,
{
    if i > 0 {
        assert(props[0].name != name);
        assert(forall|j: int|
            0 <= j < props.len() - 1 ==> #[trigger] props.drop_first()[j] == props[j + 1]);
        lemma_find_prop_in_first(props.drop_first(), name, i - 1);
    }
}

/// The first match determines the search result.
pub proof fn lemma_find_sig_in_first(sigs: Seq<SigModel>, name: Seq<char>, i: int)
    requires
        0 <= i < sigs.len(),
        sigs[i].name == name,
        forall|j: int| 0 <= j < i ==> sigs[j].name != name,
    ensures
        spec_find_sig_in(sigs, name) == Some(i),
    decreases i,
{
    if i > 0 {
        assert(sigs[0].name != name);
        assert(forall|j: int|
            0 <= j < sigs.len() - 1 ==> #[trigger] sigs.drop_first()[j] == sigs[j + 1]);
        lemma_find_sig_in_first(sigs.drop_first(), name, i - 1);
    }
}

/// Scans one descriptor table for the first property with the given name.
fn find_in_props(props: &Vec<PropertyDescriptor>, name: &String) -> (r: Option<usize>)
    ensures
        ({
            let pm = props@.map_values(|p: PropertyDescriptor| p@);
            match r {
                Some(j) => spec_find_prop_in(pm, name@) == Some(j as int),
                None => spec_find_prop_in(pm, name@) is None,
            }
        }),
{
    let ghost pm = props@.map_values(|p: PropertyDescriptor| p@);
    let mut j: usize = 0;
    while j < props.len()
        invariant
            j <= props@.len(),
            pm == props@.map_values(|p: PropertyDescriptor| p@),
            forall|k: int| 0 <= k < j ==> pm[k].name != name@,
        decreases props@.len() - j,
    {
        if props[j].name == *name {
            proof {
                assert(pm[j as int].name == name@);
                lemma_find_prop_in_first(pm, name@, j as int);
            }
            return Some(j);
        }
        proof {
            assert(pm[j as int] == props@[j as int]@);
        }
        j = j + 1;
    }
    proof {
        lemma_find_prop_in(pm, name@);
        match spec_find_prop_in(pm, name@) {
            Some(i) => {
                assert(pm[i].name == name@);
            },
            None => {},
        }
    }
    None
}

/// Scans one signal table for the first signal with the given name.
pub fn find_in_sigs(sigs: &Vec<SignalDescriptor>, name: &String) -> (r: Option<usize>)
    ensures
        ({
            let sm = sigs@.map_values(|s: SignalDescriptor| s@);
            match r {
                Some(j) => spec_find_sig_in(sm, name@) == Some(j as int),
                None => spec_find_sig_in(sm, name@) is None,
            }
        }),
{
    let ghost sm = sigs@.map_values(|s: SignalDescriptor| s@);
    let mut j: usize = 0;
    while j < sigs.len()
        invariant
            j <= sigs@.len(),
            sm == sigs@.map_values(|s: SignalDescriptor| s@),
            forall|k: int| 0 <= k < j ==> sm[k].name != name@,
        decreases sigs@.len() - j,
    {
        if sigs[j].name == *name {
            proof {
                assert(sm[j as int].name == name@);
                lemma_find_sig_in_first(sm, name@, j as int);
            }
            return Some(j);
        }
        proof {
            assert(sm[j as int] == sigs@[j as int]@);
        }
        j = j + 1;
    }
    proof {
        lemma_find_sig_in(sm, name@);
        match spec_find_sig_in(sm, name@) {
            Some(i) => {
                assert(sm[i].name == name@);
            },
            None => {},
        }
    }
    None
}

/// Scans the first `upto` entries of a descriptor table for the given name.
pub fn find_in_props_upto(props: &Vec<PropertyDescriptor>, upto: usize, name: &String) -> (r:
    Option<usize>)
    requires
        upto <= props@.len(),
    ensures
        ({
            let pm = props@.map_values(|p: PropertyDescriptor| p@).take(upto as int);
            match r {
                Some(j) => spec_find_prop_in(pm, name@) == Some(j as int),
                None => spec_find_prop_in(pm, name@) is None,
            }
        }),
{
    let ghost pm = props@.map_values(|p: PropertyDescriptor| p@).take(upto as int);
    let mut j: usize = 0;
    while j < upto
        invariant
            j <= upto,
            upto <= props@.len(),
            pm == props@.map_values(|p: PropertyDescriptor| p@).take(upto as int),
            forall|k: int| 0 <= k < j ==> pm[k].name != name@,
        decreases upto - j,
    {
        if props[j].name == *name {
            proof {
                assert(pm[j as int].name == name@);
                lemma_find_prop_in_first(pm, name@, j as int);
            }
            return Some(j);
        }
        proof {
            assert(pm[j as int] == props@[j as int]@);
        }
        j = j + 1;
    }
    proof {
        lemma_find_prop_in(pm, name@);
        match spec_find_prop_in(pm, name@) {
            Some(i) => {
                assert(pm[i].name == name@);
            },
            None => {},
        }
    }
    None
}

impl Runtime {
    /// Resolves a property name on type `t` to its index in the flattened
    /// descriptor list. The flattened list must fit the machine's index
    /// range; for any type that has an instance this is implied by the
    /// instance's value table.
    pub fn find_prop_index(&self, t: usize, name: &String) -> (r: Option<usize>)
        requires
            self.wf(),
            spec_all_props(self@.classes, t).len() <= usize::MAX,
        ensures
            ({
                let f = spec_find_prop(self@.classes, t, name@);
                match r {
                    Some(i) => f == Some(i as int),
                    None => f is None,
                }
            }),
    {
        let ghost all = spec_all_props(self@.classes, t);
        if t >= self.classes.len() {
            proof {
                assert(all =~= Seq::<PropModel>::empty());
            }
            return None;
        }
        let mut cur: usize = t;
        let mut offset: usize = 0;
        let ghost mut prefix: Seq<PropModel> = Seq::empty();
        proof {
            assert(all =~= prefix + spec_all_props(self@.classes, cur));
        }
        loop
            invariant
                self.wf(),
                (cur as int) < self@.classes.len(),
                offset == prefix.len(),
                all == spec_all_props(self@.classes, t),
                all.len() <= usize::MAX,
                all == prefix + spec_all_props(self@.classes, cur),
                spec_find_prop_in(prefix, name@) is None,
            decreases cur,
        {
            let c = &self.classes[cur];
            let ghost cm = self@.classes[cur as int];
            let ghost own = cm.props;
            let ghost rest = match cm.parent {
                Some(p) => if p < cur {
                    spec_all_props(self@.classes, p)
                } else {
                    Seq::empty()
                },
                None => Seq::empty(),
            };
            proof {
                assert(cm == self.classes@[cur as int]@);
                assert(own == c.properties@.map_values(|p: PropertyDescriptor| p@));
                assert(spec_all_props(self@.classes, cur) == own + rest);
                assert(all.len() == prefix.len() + own.len() + rest.len()) by {
                    assert(all == prefix + (own + rest));
                }
            }
            match find_in_props(&c.properties, name) {
                Some(j) => {
                    proof {
                        lemma_find_prop_in(own, name@);
                        assert((j as int) < own.len());
                        lemma_find_prop_in_concat(own, rest, name@);
                        lemma_find_prop_in_concat(prefix, own + rest, name@);
                        assert(spec_find_prop_in(all, name@) == Some(offset + j as int));
                        assert(offset + j < all.len());
                    }
                    return Some(offset + j);
                },
                None => {
                    proof {
                        lemma_find_prop_in_concat(prefix, own, name@);
                        let prefix2 = prefix + own;
                        assert(all =~= prefix2 + rest);
                        prefix = prefix2;
                    }
                    offset = offset + c.properties.len();
                    match c.parent {
                        Some(p) => {
                            proof {
                                assert(cm.parent matches Some(q) && q == p);
                                assert((p as int) < cur as int);
                                assert(all == prefix + spec_all_props(self@.classes, p));
                            }
                            cur = p;
                        },
                        None => {
                            proof {
                                assert(rest =~= Seq::<PropModel>::empty());
                                assert(all =~= prefix);
                            }
                            return None;
                        },
                    }
                },
            }
        }
    }

    /// Looks a property up across the type's ancestor chain and returns a
    /// copy of the most derived descriptor with that name.
    pub fn find_property(&self, t: usize, name: &String) -> (r: Option<PropertyDescriptor>)
        requires
            self.wf(),
        ensures
            ({
                let f = spec_find_prop(self@.classes, t, name@);
                match r {
                    Some(d) => f matches Some(i) && d@ == spec_all_props(self@.classes, t)[i],
                    None => f is None,
                }
            }),
    {
        let ghost all = spec_all_props(self@.classes, t);
        if t >= self.classes.len() {
            proof {
                assert(all =~= Seq::<PropModel>::empty());
            }
            return None;
        }
        let mut cur: usize = t;
        let ghost mut prefix: Seq<PropModel> = Seq::empty();
        proof {
            assert(all =~= prefix + spec_all_props(self@.classes, cur));
        }
        loop
            invariant
                self.wf(),
                (cur as int) < self@.classes.len(),
                all == spec_all_props(self@.classes, t),
                all == prefix + spec_all_props(self@.classes, cur),
                spec_find_prop_in(prefix, name@) is None,
            decreases cur,
        {
            let c = &self.classes[cur];
            let ghost cm = self@.classes[cur as int];
            let ghost own = cm.props;
            let ghost rest = match cm.parent {
                Some(p) => if p < cur {
                    spec_all_props(self@.classes, p)
                } else {
                    Seq::empty()
                },
                None => Seq::empty(),
            };
            proof {
                assert(cm == self.classes@[cur as int]@);
                assert(own == c.properties@.map_values(|p: PropertyDescriptor| p@));
                assert(spec_all_props(self@.classes, cur) == own + rest);
            }
            match find_in_props(&c.properties, name) {
                Some(j) => {
                    proof {
                        lemma_find_prop_in(own, name@);
                        assert((j as int) < own.len());
                        lemma_find_prop_in_concat(own, rest, name@);
                        lemma_find_prop_in_concat(prefix, own + rest, name@);
                        assert(spec_find_prop_in(all, name@) == Some(prefix.len() + j as int));
                        assert(all == prefix + (own + rest));
                        assert((own + rest)[j as int] == own[j as int]);
                        assert(all[prefix.len() + j as int] == own[j as int]);
                        assert(own[j as int] == c.properties@[j as int]@);
                    }
                    return Some(c.properties[j].duplicate());
                },
                None => {
                    proof {
                        lemma_find_prop_in_concat(prefix, own, name@);
                        let prefix2 = prefix + own;
                        assert(all =~= prefix2 + rest);
                        prefix = prefix2;
                    }
                    match c.parent {
                        Some(p) => {
                            proof {
                                assert(cm.parent matches Some(q) && q == p);
                                assert((p as int) < cur as int);
                            }
                            cur = p;
                        },
                        None => {
                            proof {
                                assert(rest =~= Seq::<PropModel>::empty());
                                assert(all =~= prefix);
                            }
                            return None;
                        },
                    }
                },
            }
        }
    }

    /// The declared value type of the named property, if it resolves.
    pub fn get_property_type(&self, t: usize, name: &String) -> (r: Option<ValueType>)
        requires
            self.wf(),
        ensures
            ({
                let f = spec_find_prop(self@.classes, t, name@);
                match r {
                    Some(vt) => f matches Some(i) && vt == spec_all_props(self@.classes, t)[i].ty,
                    None => f is None,
                }
            }),
    {
        match self.find_property(t, name) {
            Some(d) => Some(d.value_type),
            None => None,
        }
    }

    /// Whether the named property exists on the type (or an ancestor), and,
    /// when a type is supplied, has exactly that declared value type.
    pub fn has_property(&self, t: usize, name: &String, ty: Option<ValueType>) -> (r: bool)
        requires
            self.wf(),
        ensures
            ({
                let f = spec_find_prop(self@.classes, t, name@);
                r == match f {
                    Some(i) => match ty {
                        Some(want) => spec_all_props(self@.classes, t)[i].ty == want,
                        None => true,
                    },
                    None => false,
                }
            }),
    {
        match self.get_property_type(t, name) {
            Some(pt) => match ty {
                Some(want) => pt == want,
                None => true,
            },
            None => false,
        }
    }

    /// Resolves a signal name on type `t`: the most derived declaring type
    /// and the signal's index in that type's table.
    pub fn find_signal(&self, t: usize, name: &String) -> (r: Option<(usize, usize)>)
        requires
            self.wf(),
        ensures
            ({
                let f = spec_find_signal(self@.classes, t, name@);
                match r {
                    Some(p) => f == Some((p.0, p.1 as int)),
                    None => f is None,
                }
            }),
    {
        if t >= self.classes.len() {
            return None;
        }
        let mut cur: usize = t;
        loop
            invariant
                self.wf(),
                (cur as int) < self@.classes.len(),
                spec_find_signal(self@.classes, t, name@) == spec_find_signal(
                    self@.classes,
                    cur,
                    name@,
                ),
            decreases cur,
        {
            let c = &self.classes[cur];
            let ghost cm = self@.classes[cur as int];
            proof {
                assert(cm == self.classes@[cur as int]@);
                assert(cm.signals == c.signals@.map_values(|s: SignalDescriptor| s@));
            }
            match find_in_sigs(&c.signals, name) {
                Some(j) => {
                    return Some((cur, j));
                },
                None => {
                    match c.parent {
                        Some(p) => {
                            proof {
                                assert(cm.parent matches Some(q) && q == p);
                                assert((p as int) < cur as int);
                            }
                            cur = p;
                        },
                        None => {
                            return None;
                        },
                    }
                },
            }
        }
    }
}

} // verus!
