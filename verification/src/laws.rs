//! The laws the runtime obeys, stated over the ghost model and proved from
//! the contracts of the operations.

use vstd::prelude::*;

use crate::bindings::spec_propagate;
use crate::construct::{
    lemma_check_ctor_char, lemma_ctor_first_failure, spec_check_ctor_props, spec_ctor_err,
    spec_ctor_pair_err,
};
use crate::errors::{ConstructError, PropertyError, SignalError};
use crate::resolve::{
    lemma_find_prop_in, lemma_find_signal_bounds, lemma_is_a_antisymmetric, rt_wf, spec_all_props,
    spec_find_prop, spec_find_signal, spec_is_a, spec_is_ancestor,
};
use crate::properties::{spec_get_property, spec_set_property};
use crate::runtime::{Accumulator, ConnModel, HandlerModel, RtModel};
use crate::signals::{
    conn_matches, spec_accumulate, spec_emit, spec_matching, spec_plan, spec_run_handler,
    spec_run_plan, spec_run_step, Dispatchee, EMIT_DEPTH_LIMIT,
};
use crate::validate::{spec_apply_range, spec_validate_property, spec_value_fits};
use crate::values::ValModel;

verus! {

/// Ancestry law: on a well-formed runtime, for every registered pair where
/// `b` lies on `a`'s class chain, `a` is a `b`, and `b` is not an `a`
/// unless the two types are the same.
pub proof fn lemma_ancestry(rt: RtModel, a: usize, b: usize)
    requires
        rt_wf(rt),
        spec_is_ancestor(rt.classes, a, b),
    ensures
        spec_is_a(rt.classes, a, b),
        a != b ==> !spec_is_a(rt.classes, b, a),
{
    lemma_is_a_antisymmetric(rt.classes, a, b);
}

/// Construction law, rejecting half: supplying a value for a resolvable
/// property that lacks the writable flag fails construction with the
/// not-writable error, provided the earlier supplied pairs are themselves
/// valid.
pub proof fn lemma_construct_not_writable(
    rt: RtModel,
    tid: usize,
    pairs: Seq<(Seq<char>, ValModel)>,
    i: int,
)
    requires
        (tid as int) < rt.classes.len(),
        rt.classes[tid as int].instantiable,
        !rt.classes[tid as int].is_abstract,
        0 <= i < pairs.len(),
        forall|j: int|
            0 <= j < i ==> spec_ctor_pair_err(rt.classes, rt.insts, tid, #[trigger] pairs[j])
                is None,
        spec_find_prop(rt.classes, tid, pairs[i].0) matches Some(x) && !spec_all_props(
            rt.classes,
            tid,
        )[x].flags.writable,
    ensures
        spec_ctor_err(rt.classes, rt.insts, tid, pairs) == Some(ConstructError::NotWritable),
{
    let x = spec_find_prop(rt.classes, tid, pairs[i].0)->Some_0;
    assert(spec_validate_property(
        rt.classes,
        rt.insts,
        spec_all_props(rt.classes, tid)[x],
        true,
        pairs[i].1,
    ) == Err::<ValModel, PropertyError>(PropertyError::NotWritable));
    assert(spec_ctor_pair_err(rt.classes, rt.insts, tid, pairs[i]) == Some(
        ConstructError::NotWritable,
    ));
    lemma_ctor_first_failure(
        rt.classes,
        rt.insts,
        tid,
        pairs,
        i,
        ConstructError::NotWritable,
    );
}

/// Construction law, accepting half: construction of a registered,
/// instantiable, concrete type succeeds whenever every supplied pair
/// (construct-only properties among them) resolves and validates.
pub proof fn lemma_construct_succeeds(rt: RtModel, tid: usize, pairs: Seq<(Seq<char>, ValModel)>)
    requires
        (tid as int) < rt.classes.len(),
        rt.classes[tid as int].instantiable,
        !rt.classes[tid as int].is_abstract,
        forall|j: int|
            0 <= j < pairs.len() ==> spec_ctor_pair_err(rt.classes, rt.insts, tid, #[trigger] pairs[j])
                is None,
    ensures
        spec_ctor_err(rt.classes, rt.insts, tid, pairs) is None,
{
    lemma_check_ctor_char(rt.classes, rt.insts, tid, pairs);
    match spec_check_ctor_props(rt.classes, rt.insts, tid, pairs) {
        Ok(_) => {},
        Err(e) => {
            let i0 = choose|i0: int|
                0 <= i0 < pairs.len() && (forall|j: int|
                    0 <= j < i0 ==> (#[trigger] spec_find_prop(rt.classes, tid, pairs[j].0))
                        is Some && spec_validate_property(
                        rt.classes,
                        rt.insts,
                        spec_all_props(rt.classes, tid)[spec_find_prop(
                            rt.classes,
                            tid,
                            pairs[j].0,
                        )->Some_0],
                        true,
                        pairs[j].1,
                    ) is Ok) && #[trigger] spec_ctor_pair_err(rt.classes, rt.insts, tid, pairs[i0])
                    == Some(e);
            assert(spec_ctor_pair_err(rt.classes, rt.insts, tid, pairs[i0]) is None);
        },
    }
}

/// No binding fires on a change of `(iid, prop)` when none observes it.
pub proof fn lemma_propagate_noop(rt: RtModel, iid: usize, prop: Seq<char>, v: ValModel, n: int)
    requires
        forall|k: int|
            0 <= k < rt.bindings.len() ==> {
                let b = #[trigger] rt.bindings[k];
                !(b.source == iid && b.source_prop == prop) && !(b.bidirectional && b.target == iid
                    && b.target_prop == prop)
            },
        n <= rt.bindings.len(),
    ensures
        spec_propagate(rt, iid, prop, v, n) == rt,
    decreases n,
{
    if n > 0 {
        lemma_propagate_noop(rt, iid, prop, v, n - 1);
    }
}

/// Write-then-read law: after a successful write of a value that fits its
/// property exactly (no covariant retag) and passes range validation
/// unchanged, an immediate read returns that very value — provided nothing
/// observes the write: the change notification dispatches to no handler and
/// no binding is attached to the property. If range validation does adjust
/// the value and the property does not allow lax validation, the write
/// instead fails with the validation error and changes nothing (see
/// [`lemma_set_validation_failed`]).
pub proof fn lemma_set_get_round_trip(rt: RtModel, iid: usize, name: Seq<char>, v: ValModel)
    requires
        rt_wf(rt),
        (iid as int) < rt.insts.len() && rt.insts[iid as int].alive,
        spec_find_prop(rt.classes, rt.insts[iid as int].type_id, name) matches Some(idx) && {
            let p = spec_all_props(rt.classes, rt.insts[iid as int].type_id)[idx];
            &&& p.flags.writable
            &&& !p.flags.construct_only
            &&& p.flags.readable
            &&& spec_value_fits(rt.classes, rt.insts, p.ty, v) == Some(v)
            &&& !spec_apply_range(p, v).1
        },
        // the reserved change signal dispatches to nothing
        ({
            let tid = rt.insts[iid as int].type_id;
            spec_find_signal(rt.classes, tid, "notify"@) matches Some((st, si))
                ==> spec_plan(
                rt.classes[st as int].signals[si].flags,
                rt.classes[st as int].signals[si].class_handler is Some,
                rt.conns,
                iid,
                st,
                si,
                Some(name),
            ) == Seq::<Dispatchee>::empty()
        }),
        // no binding observes the property
        forall|k: int|
            0 <= k < rt.bindings.len() ==> {
                let b = #[trigger] rt.bindings[k];
                !(b.source == iid && b.source_prop == name) && !(b.bidirectional && b.target == iid
                    && b.target_prop == name)
            },
    ensures
        spec_set_property(rt, iid, name, v).1 == Ok::<(), PropertyError>(()),
        spec_get_property(spec_set_property(rt, iid, name, v).0, iid, name) == Ok::<
            ValModel,
            PropertyError,
        >(v),
{
    let tid = rt.insts[iid as int].type_id;
    let idx = spec_find_prop(rt.classes, tid, name)->Some_0;
    let p = spec_all_props(rt.classes, tid)[idx];
    lemma_find_prop_in(spec_all_props(rt.classes, tid), name);
    assert(spec_validate_property(rt.classes, rt.insts, p, false, v) == Ok::<
        ValModel,
        PropertyError,
    >(v));
    let rt1 = crate::signals::spec_commit(rt, iid, idx, v);
    assert(rt1.classes == rt.classes);
    assert(rt1.conns == rt.conns);
    assert(rt1.insts[iid as int].alive && rt1.insts[iid as int].type_id == tid);
    let e = spec_emit(
        rt1,
        iid,
        "notify"@,
        Some(name),
        seq![ValModel::Str(name)],
        EMIT_DEPTH_LIMIT,
    );
    let rt2 = e.0;
    assert(rt2 == rt1) by {
        match spec_find_signal(rt1.classes, tid, "notify"@) {
            None => {},
            Some((st, si)) => {
                lemma_find_signal_bounds(rt1.classes, tid, "notify"@);
                let sig = rt1.classes[st as int].signals[si];
                if seq![ValModel::Str(name)].len() == sig.args.len() {
                    match crate::validate::spec_validate_args(
                        rt1.classes,
                        rt1.insts,
                        sig.args,
                        seq![ValModel::Str(name)],
                    ) {
                        Err(_) => {},
                        Ok(vargs) => {
                            let plan = spec_plan(
                                sig.flags,
                                sig.class_handler is Some,
                                rt1.conns,
                                iid,
                                st,
                                si,
                                Some(name),
                            );
                            assert(plan.len() == 0);
                            assert(spec_run_plan(
                                rt1,
                                iid,
                                sig.class_handler,
                                sig.accumulator,
                                plan,
                                vargs,
                                None,
                                EMIT_DEPTH_LIMIT,
                            ) == (rt1, None::<ValModel>));
                        },
                    }
                }
            },
        }
    }
    assert(rt2.bindings == rt.bindings);
    lemma_propagate_noop(rt2, iid, name, v, rt2.bindings.len() as int);
    let rt3 = spec_propagate(rt2, iid, name, v, rt2.bindings.len() as int);
    assert(rt3 == rt1);
    assert(spec_set_property(rt, iid, name, v) == (rt3, Ok::<(), PropertyError>(())));
    assert(rt3.insts[iid as int].values[idx] == v);
    assert(spec_get_property(rt3, iid, name) == Ok::<ValModel, PropertyError>(v));
}

/// Write-validation law: a value that range validation must adjust is
/// rejected with the validation error when the property does not allow lax
/// validation, and the write changes nothing.
pub proof fn lemma_set_validation_failed(rt: RtModel, iid: usize, name: Seq<char>, v: ValModel)
    requires
        rt_wf(rt),
        (iid as int) < rt.insts.len() && rt.insts[iid as int].alive,
        spec_find_prop(rt.classes, rt.insts[iid as int].type_id, name) matches Some(idx) && {
            let p = spec_all_props(rt.classes, rt.insts[iid as int].type_id)[idx];
            &&& p.flags.writable
            &&& !p.flags.construct_only
            &&& !p.flags.lax_validation
            &&& (spec_value_fits(rt.classes, rt.insts, p.ty, v) matches Some(v2)
                && spec_apply_range(p, v2).1)
        },
    ensures
        spec_set_property(rt, iid, name, v) == (rt, Err::<(), PropertyError>(
            PropertyError::ValidationFailed,
        )),
{
}

/// Destruction law: on a well-formed runtime every destroyed instance
/// stands in the destruction log exactly once, and no live instance stands
/// in it at all. Together with the reference-counting contracts (cloning
/// increments the count, dropping decrements it, and the transition to
/// count zero records the destruction and clears the weak slots exactly
/// when it happens), creating an instance, cloning it any number of times
/// and dropping every reference destroys it exactly once.
pub proof fn lemma_destruction_once(rt: RtModel, iid: usize)
    requires
        rt_wf(rt),
        (iid as int) < rt.insts.len(),
    ensures
        rt.insts[iid as int].alive ==> !rt.destroyed.contains(iid),
        !rt.insts[iid as int].alive ==> rt.destroyed.contains(iid),
        forall|a: int, b: int|
            0 <= a < b < rt.destroyed.len() ==> rt.destroyed[a] != rt.destroyed[b],
{
    if rt.insts[iid as int].alive {
        if rt.destroyed.contains(iid) {
            let w = choose|w: int| 0 <= w < rt.destroyed.len() && rt.destroyed[w] == iid;
            assert(!rt.insts[rt.destroyed[w] as int].alive);
        }
    }
}

/// Weak-reference safety law: on a well-formed runtime no weak slot aims at
/// a destroyed instance — a slot either aims at a live instance or was
/// cleared in the same step that destroyed its target. An upgrade therefore
/// either yields a live instance or nothing, never a stale reference.
pub proof fn lemma_weak_never_stale(rt: RtModel, s: int)
    requires
        rt_wf(rt),
        0 <= s < rt.weaks.len(),
    ensures
        rt.weaks[s] matches Some(t) ==> (t as int) < rt.insts.len() && rt.insts[t as int].alive,
        forall|iid: int|
            0 <= iid < rt.insts.len() && !rt.insts[iid].alive ==> rt.weaks[s] != Some(
                iid as usize,
            ),
{
    assert forall|iid: int|
        0 <= iid < rt.insts.len() && !rt.insts[iid].alive implies rt.weaks[s] != Some(
        iid as usize,
    ) by {
        if rt.weaks[s] == Some(iid as usize) {
            assert(rt.insts[iid].alive);
        }
    }
}

/// Arity law: emitting a signal with fewer or more arguments than its
/// declared arity fails with the arity error and dispatches nothing — the
/// runtime is unchanged.
pub proof fn lemma_emit_arity_mismatch(
    rt: RtModel,
    iid: usize,
    name: Seq<char>,
    detail: Option<Seq<char>>,
    args: Seq<ValModel>,
    fuel: u64,
)
    requires
        rt_wf(rt),
        (iid as int) < rt.insts.len() && rt.insts[iid as int].alive,
        spec_find_signal(rt.classes, rt.insts[iid as int].type_id, name) matches Some((st, si))
            && args.len() != rt.classes[st as int].signals[si].args.len(),
    ensures
        spec_emit(rt, iid, name, detail, args, fuel) == (rt, Err::<Option<ValModel>, SignalError>(
            SignalError::ArityMismatch,
        )),
{
    lemma_find_signal_bounds(rt.classes, rt.insts[iid as int].type_id, name);
}

/// Dispatch-order law: within one group of an emission, the connections
/// dispatch in registration order; a blocked or disconnected connection
/// never dispatches; and every connection that observes the signal,
/// unblocked, is dispatched.
pub proof fn lemma_dispatch_order(
    conns: Seq<ConnModel>,
    iid: usize,
    stid: usize,
    sidx: int,
    detail: Option<Seq<char>>,
    after: bool,
    n: int,
)
    requires
        0 <= n <= conns.len(),
        conns.len() <= usize::MAX,
    ensures
        ({
            let m = spec_matching(conns, iid, stid, sidx, detail, after, n);
            &&& (forall|a: int|
                0 <= a < m.len() ==> (#[trigger] m[a] matches Dispatchee::Conn(ci)
                    && (ci as int) < n && conn_matches(
                    conns[ci as int],
                    iid,
                    stid,
                    sidx,
                    detail,
                    after,
                )))
            &&& (forall|a: int, b: int|
                0 <= a < b < m.len() ==> (m[a]->Conn_0 as int) < (#[trigger] m[b]->Conn_0 as int))
            &&& (forall|ci: int|
                0 <= ci < n && conn_matches(#[trigger] conns[ci], iid, stid, sidx, detail, after)
                    ==> spec_matching(conns, iid, stid, sidx, detail, after, n).contains(
                    Dispatchee::Conn(ci as usize),
                ))
        }),
    decreases n,
{
    let m = spec_matching(conns, iid, stid, sidx, detail, after, n);
    if n > 0 {
        lemma_dispatch_order(conns, iid, stid, sidx, detail, after, n - 1);
        let prev = spec_matching(conns, iid, stid, sidx, detail, after, n - 1);
        assert forall|a: int| 0 <= a < m.len() implies (#[trigger] m[a]
            matches Dispatchee::Conn(ci) && (ci as int) < n && conn_matches(
            conns[ci as int],
            iid,
            stid,
            sidx,
            detail,
            after,
        )) by {
            if a < prev.len() {
                assert(m[a] == prev[a]);
            }
        }
        assert forall|a: int, b: int| 0 <= a < b < m.len() implies (m[a]->Conn_0 as int) < (
        #[trigger] m[b]->Conn_0 as int) by {
            if b < prev.len() {
                assert(m[a] == prev[a] && m[b] == prev[b]);
            } else if conn_matches(conns[n - 1], iid, stid, sidx, detail, after) && b
                == prev.len() {
                assert(m[a] == prev[a]);
                assert(m[b] == Dispatchee::Conn((n - 1) as usize));
            }
        }
        assert forall|ci: int|
            0 <= ci < n && conn_matches(
                #[trigger] conns[ci],
                iid,
                stid,
                sidx,
                detail,
                after,
            ) implies spec_matching(conns, iid, stid, sidx, detail, after, n).contains(
            Dispatchee::Conn(ci as usize),
        ) by {
            if ci < n - 1 {
                assert(prev.contains(Dispatchee::Conn(ci as usize)));
                let w = choose|w: int| 0 <= w < prev.len() && prev[w] == Dispatchee::Conn(
                    ci as usize,
                );
                assert(m[w] == Dispatchee::Conn(ci as usize));
                assert(m.contains(Dispatchee::Conn(ci as usize)));
            } else {
                assert(ci == n - 1);
                assert(conn_matches(conns[n - 1], iid, stid, sidx, detail, after));
                assert(m[m.len() - 1] == Dispatchee::Conn((n - 1) as usize));
                assert(m.contains(Dispatchee::Conn(ci as usize)));
            }
        }
    }
}

/// What an emission leaves alone: everything except stored property values
/// and the dispatch log. In particular the registry, the connection table,
/// the weak slots, the bindings, the destruction log, every reference count
/// and every liveness flag stay exactly as they were, and no value table
/// changes its length.
pub open spec fn same_frame(a: RtModel, b: RtModel) -> bool {
    &&& b.classes == a.classes
    &&& b.conns == a.conns
    &&& b.weaks == a.weaks
    &&& b.bindings == a.bindings
    &&& b.destroyed == a.destroyed
    &&& b.insts.len() == a.insts.len()
    &&& (forall|i: int|
        0 <= i < a.insts.len() ==> {
            let x = #[trigger] b.insts[i];
            &&& x.alive == a.insts[i].alive
            &&& x.type_id == a.insts[i].type_id
            &&& x.ref_count == a.insts[i].ref_count
            &&& x.floating == a.insts[i].floating
            &&& x.values.len() == a.insts[i].values.len()
        })
}

/// Frame law for one handler: dispatching it only writes property values
/// and the dispatch log.
pub proof fn lemma_handler_frame(
    rt: RtModel,
    iid: usize,
    h: HandlerModel,
    args: Seq<ValModel>,
    fuel: u64,
)
    ensures
        same_frame(rt, spec_run_handler(rt, iid, h, args, fuel).0),
    decreases fuel, 0int, 0int, 0int,
{
    match h {
        HandlerModel::Log { tag, ret } => {},
        HandlerModel::LogStop { tag, ret } => {},
        HandlerModel::ReplaceEmit { prop, signal } => {
            if (iid as int) < rt.insts.len() && rt.insts[iid as int].alive && args.len() >= 1 {
                let tid2 = rt.insts[iid as int].type_id;
                match spec_find_prop(rt.classes, tid2, prop) {
                    Some(idx) => if 0 <= idx < rt.insts[iid as int].values.len() {
                        let rt1 = crate::signals::spec_commit(rt, iid, idx, args[0]);
                        assert(same_frame(rt, rt1));
                        if fuel >= 1 {
                            lemma_emit_frame(rt1, iid, signal, None, seq![args[0]], (fuel - 1) as u64);
                        }
                    },
                    None => {},
                }
            }
        },
    }
}

/// Frame law for one plan step.
pub proof fn lemma_step_frame(
    rt: RtModel,
    iid: usize,
    ch: Option<HandlerModel>,
    acc_cfg: Option<Accumulator>,
    plan: Seq<Dispatchee>,
    args: Seq<ValModel>,
    acc: Option<ValModel>,
    fuel: u64,
    h: HandlerModel,
)
    ensures
        same_frame(rt, spec_run_step(rt, iid, ch, acc_cfg, plan, args, acc, fuel, h).0),
    decreases fuel, 0int, plan.len(), 0int,
{
    if plan.len() > 0 {
        lemma_handler_frame(rt, iid, h, args, fuel);
        let o = spec_run_handler(rt, iid, h, args, fuel);
        let step = match o.1 {
            None => (acc, false),
            Some(v) => match acc_cfg {
                None => (Some(v), false),
                Some(a) => spec_accumulate(a, v),
            },
        };
        if !(o.2 || step.1) {
            lemma_plan_frame(o.0, iid, ch, acc_cfg, plan.drop_first(), args, step.0, fuel);
        }
    }
}

/// Frame law for a whole dispatch plan.
pub proof fn lemma_plan_frame(
    rt: RtModel,
    iid: usize,
    ch: Option<HandlerModel>,
    acc_cfg: Option<Accumulator>,
    plan: Seq<Dispatchee>,
    args: Seq<ValModel>,
    acc: Option<ValModel>,
    fuel: u64,
)
    ensures
        same_frame(rt, spec_run_plan(rt, iid, ch, acc_cfg, plan, args, acc, fuel).0),
    decreases fuel, 0int, plan.len(), 1int,
{
    if plan.len() > 0 {
        match plan[0] {
            Dispatchee::Class => match ch {
                Some(h) => lemma_step_frame(rt, iid, ch, acc_cfg, plan, args, acc, fuel, h),
                None => lemma_plan_frame(
                    rt,
                    iid,
                    ch,
                    acc_cfg,
                    plan.drop_first(),
                    args,
                    acc,
                    fuel,
                ),
            },
            Dispatchee::Conn(ci) => if (ci as int) < rt.conns.len() {
                lemma_step_frame(
                    rt,
                    iid,
                    ch,
                    acc_cfg,
                    plan,
                    args,
                    acc,
                    fuel,
                    rt.conns[ci as int].handler,
                );
            } else {
                lemma_plan_frame(rt, iid, ch, acc_cfg, plan.drop_first(), args, acc, fuel);
            },
        }
    }
}

/// Frame law for a whole emission: dispatch state lives on the call stack,
/// so emission (reentrant emission from handlers included) changes nothing
/// but stored property values and the dispatch log. The metadata tables are
/// immutable under dispatch.
pub proof fn lemma_emit_frame(
    rt: RtModel,
    iid: usize,
    name: Seq<char>,
    detail: Option<Seq<char>>,
    args: Seq<ValModel>,
    fuel: u64,
)
    ensures
        same_frame(rt, spec_emit(rt, iid, name, detail, args, fuel).0),
    decreases fuel, 1int, 0int, 0int,
{
    if (iid as int) < rt.insts.len() && rt.insts[iid as int].alive {
        let tid = rt.insts[iid as int].type_id;
        match spec_find_signal(rt.classes, tid, name) {
            None => {},
            Some((stid, sidx)) => {
                if (stid as int) < rt.classes.len() && 0 <= sidx < rt.classes[stid
                    as int].signals.len() {
                    let sig = rt.classes[stid as int].signals[sidx];
                    if args.len() == sig.args.len() {
                        match crate::validate::spec_validate_args(
                            rt.classes,
                            rt.insts,
                            sig.args,
                            args,
                        ) {
                            Err(_) => {},
                            Ok(vargs) => {
                                let plan = spec_plan(
                                    sig.flags,
                                    sig.class_handler is Some,
                                    rt.conns,
                                    iid,
                                    stid,
                                    sidx,
                                    detail,
                                );
                                lemma_plan_frame(
                                    rt,
                                    iid,
                                    sig.class_handler,
                                    sig.accumulator,
                                    plan,
                                    vargs,
                                    None,
                                    fuel,
                                );
                            },
                        }
                    }
                }
            },
        }
    }
}

/// Resolution law: a signal name resolves to the most specific declaring
/// type along the "is-a" chain — a type that redeclares an ancestor's
/// signal (thereby also supplying its own class handler) shadows it for its
/// instances.
pub proof fn lemma_signal_resolution_most_derived(
    rt: RtModel,
    t: usize,
    name: Seq<char>,
    j: int,
)
    requires
        (t as int) < rt.classes.len(),
        0 <= j < rt.classes[t as int].signals.len(),
        rt.classes[t as int].signals[j].name == name,
    ensures
        spec_find_signal(rt.classes, t, name) matches Some((st, si)) && st == t
            && rt.classes[t as int].signals[si].name == name,
{
    crate::resolve::lemma_find_sig_in(rt.classes[t as int].signals, name);
    match crate::resolve::spec_find_sig_in(rt.classes[t as int].signals, name) {
        Some(_) => {},
        None => {
            assert(rt.classes[t as int].signals[j].name != name);
        },
    }
}

/// Early-stop law: when an accumulator tells the emission to stop after a
/// handler's return value, no later entry of the dispatch plan runs — the
/// emission ends in exactly the state the stopping handler left behind.
pub proof fn lemma_accumulator_stops(
    rt: RtModel,
    iid: usize,
    ch: Option<HandlerModel>,
    a: Accumulator,
    plan: Seq<Dispatchee>,
    args: Seq<ValModel>,
    acc: Option<ValModel>,
    fuel: u64,
    h: HandlerModel,
)
    requires
        plan.len() > 0,
        match plan[0] {
            Dispatchee::Class => ch == Some(h),
            Dispatchee::Conn(ci) => (ci as int) < rt.conns.len() && rt.conns[ci as int].handler
                == h,
        },
        spec_run_handler(rt, iid, h, args, fuel).1 matches Some(v) && spec_accumulate(a, v).1,
    ensures
        spec_run_plan(rt, iid, ch, Some(a), plan, args, acc, fuel) == (
            spec_run_handler(rt, iid, h, args, fuel).0,
            spec_accumulate(a, spec_run_handler(rt, iid, h, args, fuel).1->Some_0).0,
        ),
{
    let o = spec_run_handler(rt, iid, h, args, fuel);
    let v = o.1->Some_0;
    assert(spec_run_plan(rt, iid, ch, Some(a), plan, args, acc, fuel) == spec_run_step(
        rt,
        iid,
        ch,
        Some(a),
        plan,
        args,
        acc,
        fuel,
        h,
    ));
}

} // verus!
