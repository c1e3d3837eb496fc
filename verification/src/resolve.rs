//! Type-registry resolution: the "is-a" relation, the flattened property
//! list of a type, name lookup for properties and signals, and the
//! runtime's well-formedness invariant.

use vstd::prelude::*;

use crate::runtime::{ClassModel, PropModel, RtModel, Runtime, SigModel};

verus! {

/// Registry shape: every parent and interface of a class was registered
/// before it, so walks toward the root strictly decrease the index.
pub open spec fn classes_ordered(classes: Seq<ClassModel>) -> bool {
    forall|i: int|
        0 <= i < classes.len() ==> {
            &&& (#[trigger] classes[i].parent matches Some(p) ==> (p as int) < i)
            &&& (forall|j: int|
                0 <= j < classes[i].interfaces.len() ==> (#[trigger] classes[i].interfaces[j]
                    as int) < i)
        }
}

/// A sealed class has a sealed parent: sealing always covers the whole
/// chain up to the root.
pub open spec fn classes_chain_sealed(classes: Seq<ClassModel>) -> bool {
    forall|i: int|
        0 <= i < classes.len() ==> (#[trigger] classes[i].sealed ==> (classes[i].parent
            matches Some(p) ==> classes[p as int].sealed))
}

/// Well-formedness of the registry itself.
pub open spec fn classes_wf(classes: Seq<ClassModel>) -> bool {
    classes_ordered(classes) && classes_chain_sealed(classes)
}

/// The "is-a" relation: `t` is `target` itself, implements it as an
/// interface (directly or through an ancestor), or descends from it along
/// the single-inheritance chain. An unregistered `t` is related to nothing.
pub open spec fn spec_is_a(classes: Seq<ClassModel>, t: usize, target: usize) -> bool
    decreases t,
{
    if !((t as int) < classes.len()) {
        false
    } else if t == target {
        true
    } else if classes[t as int].interfaces.contains(target) {
        true
    } else {
        match classes[t as int].parent {
            Some(p) => p < t && spec_is_a(classes, p, target),
            None => false,
        }
    }
}

/// `target` lies on `t`'s class chain (reflexively).
pub open spec fn spec_is_ancestor(classes: Seq<ClassModel>, t: usize, target: usize) -> bool
    decreases t,
{
    if !((t as int) < classes.len()) {
        false
    } else if t == target {
        true
    } else {
        match classes[t as int].parent {
            Some(p) => p < t && spec_is_ancestor(classes, p, target),
            None => false,
        }
    }
}

/// Whatever `t` is related to by `spec_is_a` was registered no later than
/// `t` itself.
pub proof fn lemma_is_a_bounds(classes: Seq<ClassModel>, t: usize, target: usize)
    requires
        classes_ordered(classes),
        spec_is_a(classes, t, target),
    ensures
        target <= t,
        (t as int) < classes.len(),
    decreases t,
{
    if t == target {
    } else if classes[t as int].interfaces.contains(target) {
        let j = choose|j: int|
            0 <= j < classes[t as int].interfaces.len() && classes[t as int].interfaces[j]
                == target;
        assert((classes[t as int].interfaces[j] as int) < t as int);
    } else {
        match classes[t as int].parent {
            Some(p) => lemma_is_a_bounds(classes, p, target),
            None => (),
        }
    }
}

/// An ancestor is reached by `spec_is_a`.
pub proof fn lemma_ancestor_is_a(classes: Seq<ClassModel>, t: usize, target: usize)
    requires
        spec_is_ancestor(classes, t, target),
    ensures
        spec_is_a(classes, t, target),
    decreases t,
{
    if t != target {
        match classes[t as int].parent {
            Some(p) => lemma_ancestor_is_a(classes, p, target),
            None => (),
        }
    }
}

/// Ancestry of registered type pairs is antisymmetric under `spec_is_a`:
/// a strict ancestor is never an instance of its descendant.
///
/// This is the general form of the registry's ordering law: for every
/// registered pair where `b` is an ancestor of `a`, `is_a(a, b)` holds,
/// and `is_a(b, a)` fails unless the two are the same type.
pub proof fn lemma_is_a_antisymmetric(classes: Seq<ClassModel>, a: usize, b: usize)
    requires
        classes_ordered(classes),
        spec_is_ancestor(classes, a, b),
    ensures
        spec_is_a(classes, a, b),
        a != b ==> !spec_is_a(classes, b, a),
{
    lemma_ancestor_is_a(classes, a, b);
    lemma_is_a_bounds(classes, a, b);
    if a != b {
        if spec_is_a(classes, b, a) {
            lemma_is_a_bounds(classes, b, a);
        }
    }
}

/// The flattened property-descriptor list of a type: its own descriptors
/// first, then the ancestors', root last. Instance value tables are indexed
/// by this list.
pub open spec fn spec_all_props(classes: Seq<ClassModel>, t: usize) -> Seq<PropModel>
    decreases t,
{
    if !((t as int) < classes.len()) {
        Seq::empty()
    } else {
        classes[t as int].props + (match classes[t as int].parent {
            Some(p) => if p < t {
                spec_all_props(classes, p)
            } else {
                Seq::empty()
            },
            None => Seq::empty(),
        })
    }
}

/// The first descriptor named `name` in `props`, with its index.
pub open spec fn spec_find_prop_in(props: Seq<PropModel>, name: Seq<char>) -> Option<int>
    decreases props.len(),
{
    if props.len() == 0 {
        None
    } else if props[0].name == name {
        Some(0int)
    } else {
        match spec_find_prop_in(props.drop_first(), name) {
            Some(i) => Some(i + 1),
            None => None,
        }
    }
}

/// A found index lies in range and is the first match.
pub proof fn lemma_find_prop_in(props: Seq<PropModel>, name: Seq<char>)
    ensures
        match spec_find_prop_in(props, name) {
            Some(i) => 0 <= i < props.len() && props[i].name == name && (forall|j: int|
                0 <= j < i ==> props[j].name != name),
            None => forall|j: int| 0 <= j < props.len() ==> props[j].name != name,
        },
    decreases props.len(),
{
    if props.len() > 0 && props[0].name != name {
        lemma_find_prop_in(props.drop_first(), name);
        assert(forall|j: int|
            0 <= j < props.len() - 1 ==> #[trigger] props.drop_first()[j] == props[j + 1]);
        match spec_find_prop_in(props.drop_first(), name) {
            Some(i) => {
                assert forall|j: int| 0 <= j < i + 1 implies props[j].name != name by {
                    if j >= 1 {
                        assert(props.drop_first()[j - 1] == props[j]);
                    }
                }
            },
            None => {
                assert forall|j: int| 0 <= j < props.len() implies props[j].name != name by {
                    if j >= 1 {
                        assert(props.drop_first()[j - 1] == props[j]);
                    }
                }
            },
        }
    }
}

/// Searching a concatenation searches the first part, then the second.
pub proof fn lemma_find_prop_in_concat(a: Seq<PropModel>, b: Seq<PropModel>, name: Seq<char>)
    ensures
        spec_find_prop_in(a + b, name) == (match spec_find_prop_in(a, name) {
            Some(i) => Some(i),
            None => match spec_find_prop_in(b, name) {
                Some(i) => Some(i + a.len()),
                None => None::<int>,
            },
        }),
    decreases a.len(),
{
    if a.len() == 0 {
        assert(a + b =~= b);
    } else {
        assert((a + b).drop_first() =~= a.drop_first() + b);
        lemma_find_prop_in_concat(a.drop_first(), b, name);
    }
}

/// Resolves a property name on `t`: the index into `spec_all_props` of the
/// most derived descriptor with that name.
pub open spec fn spec_find_prop(classes: Seq<ClassModel>, t: usize, name: Seq<char>) -> Option<
    int,
> {
    spec_find_prop_in(spec_all_props(classes, t), name)
}

/// The first signal named `name` in `sigs`, with its index.
pub open spec fn spec_find_sig_in(sigs: Seq<SigModel>, name: Seq<char>) -> Option<int>
    decreases sigs.len(),
{
    if sigs.len() == 0 {
        None
    } else if sigs[0].name == name {
        Some(0int)
    } else {
        match spec_find_sig_in(sigs.drop_first(), name) {
            Some(i) => Some(i + 1),
            None => None,
        }
    }
}

/// A found index lies in range and is the first match.
pub proof fn lemma_find_sig_in(sigs: Seq<SigModel>, name: Seq<char>)
    ensures
        match spec_find_sig_in(sigs, name) {
            Some(i) => 0 <= i < sigs.len() && sigs[i].name == name && (forall|j: int|
                0 <= j < i ==> sigs[j].name != name),
            None => forall|j: int| 0 <= j < sigs.len() ==> sigs[j].name != name,
        },
    decreases sigs.len(),
{
    if sigs.len() > 0 && sigs[0].name != name {
        lemma_find_sig_in(sigs.drop_first(), name);
        assert(forall|j: int|
            0 <= j < sigs.len() - 1 ==> #[trigger] sigs.drop_first()[j] == sigs[j + 1]);
        match spec_find_sig_in(sigs.drop_first(), name) {
            Some(i) => {
                assert forall|j: int| 0 <= j < i + 1 implies sigs[j].name != name by {
                    if j >= 1 {
                        assert(sigs.drop_first()[j - 1] == sigs[j]);
                    }
                }
            },
            None => {
                assert forall|j: int| 0 <= j < sigs.len() implies sigs[j].name != name by {
                    if j >= 1 {
                        assert(sigs.drop_first()[j - 1] == sigs[j]);
                    }
                }
            },
        }
    }
}

/// Resolves a signal name on `t`: the most derived type on `t`'s class
/// chain that declares a signal of that name, together with the signal's
/// index in that type's signal table.
pub open spec fn spec_find_signal(classes: Seq<ClassModel>, t: usize, name: Seq<char>) -> Option<
    (usize, int),
>
    decreases t,
{
    if !((t as int) < classes.len()) {
        None
    } else {
        match spec_find_sig_in(classes[t as int].signals, name) {
            Some(i) => Some((t, i)),
            None => match classes[t as int].parent {
                Some(p) => if p < t {
                    spec_find_signal(classes, p, name)
                } else {
                    None
                },
                None => None,
            },
        }
    }
}

/// A resolved signal position is in range.
pub proof fn lemma_find_signal_bounds(classes: Seq<ClassModel>, t: usize, name: Seq<char>)
    ensures
        match spec_find_signal(classes, t, name) {
            Some((st, si)) => (st as int) < classes.len() && 0 <= si < classes[st as int].signals.len()
                && classes[st as int].signals[si].name == name,
            None => true,
        },
    decreases t,
{
    if (t as int) < classes.len() {
        lemma_find_sig_in(classes[t as int].signals, name);
        match spec_find_sig_in(classes[t as int].signals, name) {
            Some(_) => (),
            None => match classes[t as int].parent {
                Some(p) => if p < t {
                    lemma_find_signal_bounds(classes, p, name);
                },
                None => (),
            },
        }
    }
}

/// A class with only its `sealed` flag set.
pub open spec fn seal_of(c: ClassModel) -> ClassModel {
    ClassModel { sealed: true, ..c }
}

/// The registry after sealing the whole class chain of `t`.
pub open spec fn spec_seal_chain(classes: Seq<ClassModel>, t: usize) -> Seq<ClassModel>
    decreases t,
{
    if !((t as int) < classes.len()) {
        classes
    } else {
        let c1 = classes.update(t as int, seal_of(classes[t as int]));
        match classes[t as int].parent {
            Some(p) => if p < t {
                spec_seal_chain(c1, p)
            } else {
                c1
            },
            None => c1,
        }
    }
}

/// Walking one step up from a member of `t`'s chain stays on `t`'s chain.
pub proof fn lemma_ancestor_step(classes: Seq<ClassModel>, t: usize, i: usize, q: usize)
    requires
        classes_ordered(classes),
        spec_is_ancestor(classes, t, i),
        classes[i as int].parent == Some(q),
    ensures
        spec_is_ancestor(classes, t, q),
    decreases t,
{
    if t == i {
        assert((q as int) < t as int);
        assert(spec_is_ancestor(classes, q, q));
    } else {
        match classes[t as int].parent {
            Some(p) => lemma_ancestor_step(classes, p, i, q),
            None => (),
        }
    }
}

/// Sealing the chain of `t` seals exactly the chain of `t` and changes
/// nothing else.
pub proof fn lemma_seal_chain_char(classes: Seq<ClassModel>, t: usize)
    requires
        classes_ordered(classes),
        (t as int) < classes.len(),
    ensures
        spec_seal_chain(classes, t).len() == classes.len(),
        forall|i: usize|
            (i as int) < classes.len() ==> #[trigger] spec_seal_chain(classes, t)[i as int] == (
            if spec_is_ancestor(classes, t, i) {
                seal_of(classes[i as int])
            } else {
                classes[i as int]
            }),
    decreases t,
{
    let c1 = classes.update(t as int, seal_of(classes[t as int]));
    assert(forall|i: int| 0 <= i < classes.len() ==> c1[i].parent == #[trigger] classes[i].parent);
    assert(forall|i: int|
        0 <= i < classes.len() ==> c1[i].interfaces == #[trigger] classes[i].interfaces);
    assert(classes_ordered(c1));
    match classes[t as int].parent {
        Some(p) => {
            assert((p as int) < t as int);
            lemma_seal_chain_char(c1, p);
            assert forall|i: usize| (i as int) < classes.len() implies #[trigger] spec_seal_chain(
                classes,
                t,
            )[i as int] == (if spec_is_ancestor(classes, t, i) {
                seal_of(classes[i as int])
            } else {
                classes[i as int]
            }) by {
                lemma_ancestor_same_parents(classes, c1, p, i);
                if i == t {
                    if spec_is_ancestor(c1, p, t) {
                        lemma_ancestor_is_a(c1, p, t);
                        lemma_is_a_bounds(c1, p, t);
                    }
                    assert(spec_is_ancestor(classes, t, i));
                } else {
                    assert(spec_is_ancestor(classes, t, i) <==> spec_is_ancestor(classes, p, i));
                }
            }
        },
        None => {
            assert forall|i: usize| (i as int) < classes.len() implies #[trigger] spec_seal_chain(
                classes,
                t,
            )[i as int] == (if spec_is_ancestor(classes, t, i) {
                seal_of(classes[i as int])
            } else {
                classes[i as int]
            }) by {
                if i == t {
                    assert(spec_is_ancestor(classes, t, i));
                } else {
                    assert(!spec_is_ancestor(classes, t, i));
                }
            }
        },
    }
}

/// Ancestry depends only on the parent pointers.
pub proof fn lemma_ancestor_same_parents(
    c1: Seq<ClassModel>,
    c2: Seq<ClassModel>,
    t: usize,
    target: usize,
)
    requires
        c1.len() == c2.len(),
        forall|i: int| 0 <= i < c1.len() ==> c1[i].parent == #[trigger] c2[i].parent,
    ensures
        spec_is_ancestor(c1, t, target) == spec_is_ancestor(c2, t, target),
    decreases t,
{
    if (t as int) < c1.len() && t != target {
        match c1[t as int].parent {
            Some(p) => if p < t {
                lemma_ancestor_same_parents(c1, c2, p, target);
            },
            None => (),
        }
    }
}

/// The flattened property list of an already-registered type does not
/// change when the registry grows.
pub proof fn lemma_all_props_prefix(c1: Seq<ClassModel>, c2: Seq<ClassModel>, t: usize)
    requires
        (t as int) < c1.len(),
        c1.len() <= c2.len(),
        forall|i: int| 0 <= i < c1.len() ==> #[trigger] c2[i] == c1[i],
    ensures
        spec_all_props(c2, t) == spec_all_props(c1, t),
    decreases t,
{
    match c1[t as int].parent {
        Some(p) => if p < t {
            lemma_all_props_prefix(c1, c2, p);
        },
        None => (),
    }
}

/// The flattened property list does not change when one class is replaced
/// by another with the same parent and the same property table.
pub proof fn lemma_all_props_update_same(
    classes: Seq<ClassModel>,
    ti: int,
    c2: ClassModel,
    t: usize,
)
    requires
        0 <= ti < classes.len(),
        c2.parent == classes[ti].parent,
        c2.props == classes[ti].props,
    ensures
        spec_all_props(classes.update(ti, c2), t) == spec_all_props(classes, t),
    decreases t,
{
    if (t as int) < classes.len() {
        match classes[t as int].parent {
            Some(p) => if p < t {
                lemma_all_props_update_same(classes, ti, c2, p);
            },
            None => (),
        }
    }
}

/// The flattened property list of `t` does not change when a class outside
/// `t`'s chain is replaced, as long as the replacement keeps its parent.
pub proof fn lemma_all_props_update_unrelated(
    classes: Seq<ClassModel>,
    ti: int,
    c2: ClassModel,
    t: usize,
)
    requires
        0 <= ti < classes.len(),
        c2.parent == classes[ti].parent,
        !spec_is_ancestor(classes, t, ti as usize),
    ensures
        spec_all_props(classes.update(ti, c2), t) == spec_all_props(classes, t),
    decreases t,
{
    if (t as int) < classes.len() {
        assert(t as int != ti);
        match classes[t as int].parent {
            Some(p) => if p < t {
                lemma_all_props_update_unrelated(classes, ti, c2, p);
            },
            None => (),
        }
    }
}

/// On a well-sealed registry, every member of a sealed type's chain is
/// sealed.
pub proof fn lemma_chain_sealed(classes: Seq<ClassModel>, t: usize, u: usize)
    requires
        classes_chain_sealed(classes),
        spec_is_ancestor(classes, t, u),
        classes[t as int].sealed,
    ensures
        classes[u as int].sealed,
    decreases t,
{
    if t != u {
        match classes[t as int].parent {
            Some(p) => lemma_chain_sealed(classes, p, u),
            None => (),
        }
    }
}

/// Well-formedness of the whole runtime model.
pub open spec fn rt_wf(rt: RtModel) -> bool {
    &&& classes_wf(rt.classes)
    &&& (forall|i: int|
        0 <= i < rt.insts.len() ==> {
            let s = #[trigger] rt.insts[i];
            &&& (s.type_id as int) < rt.classes.len()
            &&& rt.classes[s.type_id as int].sealed
            &&& s.values.len() == spec_all_props(rt.classes, s.type_id).len()
            &&& (s.alive <==> s.ref_count >= 1)
            &&& (!s.alive ==> !s.floating)
        })
    &&& (forall|i: int|
        0 <= i < rt.weaks.len() ==> (#[trigger] rt.weaks[i] matches Some(iid) ==> (iid as int)
            < rt.insts.len() && rt.insts[iid as int].alive))
    &&& (forall|i: int|
        0 <= i < rt.conns.len() ==> {
            let c = #[trigger] rt.conns[i];
            &&& (c.sig_type as int) < rt.classes.len()
            &&& (c.sig_index as int) < rt.classes[c.sig_type as int].signals.len()
            &&& (c.instance as int) < rt.insts.len()
        })
    &&& (forall|i: int|
        0 <= i < rt.destroyed.len() ==> (#[trigger] rt.destroyed[i] as int) < rt.insts.len()
            && !rt.insts[rt.destroyed[i] as int].alive)
    &&& (forall|i: int, j: int|
        0 <= i < j < rt.destroyed.len() ==> #[trigger] rt.destroyed[i] != #[trigger] rt.destroyed[j])
    &&& (forall|iid: int|
        0 <= iid < rt.insts.len() && !(#[trigger] rt.insts[iid].alive) ==> rt.destroyed.contains(
            iid as usize,
        ))
}

impl Runtime {
    /// The runtime's invariant: every constructor establishes it and every
    /// operation preserves it.
    pub open spec fn wf(&self) -> bool {
        rt_wf(self@)
    }

    /// An empty runtime: no types, no instances.
    pub fn new() -> (r: Runtime)
        ensures
            r.wf(),
            r@.classes.len() == 0,
            r@.insts.len() == 0,
            r@.weaks.len() == 0,
            r@.conns.len() == 0,
            r@.bindings.len() == 0,
            r@.log.len() == 0,
            r@.destroyed.len() == 0,
    {
        Runtime {
            classes: Vec::new(),
            instances: Vec::new(),
            weak_slots: Vec::new(),
            connections: Vec::new(),
            bindings: Vec::new(),
            dispatch_log: Vec::new(),
            destroyed: Vec::new(),
        }
    }

    /// Walks `t`'s class chain and interface sets to decide whether `t`
    /// can be treated as `target`. Returns `false` for unregistered or
    /// unrelated types and never fails.
    pub fn is_a(&self, t: usize, target: usize) -> (r: bool)
        requires
            self.wf(),
        ensures
            r == spec_is_a(self@.classes, t, target),
        decreases t,
    {
        if t >= self.classes.len() {
            return false;
        }
        if t == target {
            return true;
        }
        let c = &self.classes[t];
        let ghost cm = self@.classes[t as int];
        proof {
            assert(cm == self.classes@[t as int]@);
            assert(cm.interfaces == c.interfaces@);
            assert(cm.parent == c.parent);
        }
        let mut j: usize = 0;
        while j < c.interfaces.len()
            invariant
                j <= c.interfaces@.len(),
                (t as int) < self@.classes.len(),
                t != target,
                cm == self@.classes[t as int],
                cm.interfaces == c.interfaces@,
                forall|k: int| 0 <= k < j ==> cm.interfaces[k] != target,
            decreases c.interfaces@.len() - j,
        {
            if c.interfaces[j] == target {
                assert(cm.interfaces[j as int] == target);
                assert(cm.interfaces.contains(target));
                return true;
            }
            j = j + 1;
        }
        assert(!cm.interfaces.contains(target)) by {
            assert(forall|k: int|
                0 <= k < cm.interfaces.len() ==> #[trigger] cm.interfaces[k] != target);
        }
        match c.parent {
            Some(p) => {
                assert(cm.parent matches Some(q) && q == p);
                assert((p as int) < t as int);
                self.is_a(p, target)
            },
            None => false,
        }
    }
}

} // verus!
