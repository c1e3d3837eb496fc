//! The signal bus: connections with their life cycle, the dispatch plan of
//! an emission, and the emission engine itself with argument validation,
//! ordered dispatch, accumulation and reentrancy.

use vstd::prelude::*;

use crate::errors::SignalError;
use crate::resolve::{
    lemma_find_signal_bounds, rt_wf, spec_all_props, spec_find_prop, spec_find_signal,
};
use crate::runtime::{
    opt_handler_view, Accumulator, ConnModel, Connection, Handler, HandlerModel, InstModel,
    LogEntry, LogModel, RtModel, Runtime, SignalFlags,
};
use crate::validate::{spec_handler_conforms, spec_validate_args};
use crate::values::{
    duplicate_values, opt_value_view, spec_default_value, vals_view, ValModel, Value,
};

verus! {

/// One entry of an emission's dispatch plan: the class handler, or the
/// connection with the given identifier.
#[derive(Clone, Copy, Debug, PartialEq, Eq, Structural)]
pub enum Dispatchee {
    Class,
    Conn(usize),
}

/// The view of an optional borrowed detail string.
pub open spec fn opt_str_view(s: Option<&String>) -> Option<Seq<char>> {
    match s {
        Some(x) => Some(x@),
        None => None,
    }
}

/// The view of an optional owned string.
pub open spec fn opt_string_view(s: Option<String>) -> Option<Seq<char>> {
    match s {
        Some(x) => Some(x@),
        None => None,
    }
}

/// Whether a connection takes part in an emission of the signal at
/// `(stid, sidx)` on instance `iid` with the given detail: it must observe
/// that signal on that instance in the requested group, be neither blocked
/// nor disconnected, and its detail filter (if any) must equal the
/// emission's detail.
pub open spec fn conn_matches(
    c: ConnModel,
    iid: usize,
    stid: usize,
    sidx: int,
    detail: Option<Seq<char>>,
    after: bool,
) -> bool {
    &&& c.instance == iid
    &&& c.sig_type == stid
    &&& c.sig_index as int == sidx
    &&& c.after == after
    &&& !c.blocked
    &&& !c.disconnected
    &&& (c.detail matches Some(d) ==> detail == Some(d))
}

/// The matching connections among the first `n`, in registration order.
pub open spec fn spec_matching(
    conns: Seq<ConnModel>,
    iid: usize,
    stid: usize,
    sidx: int,
    detail: Option<Seq<char>>,
    after: bool,
    n: int,
) -> Seq<Dispatchee>
    decreases n,
{
    if n <= 0 {
        Seq::empty()
    } else {
        let prev = spec_matching(conns, iid, stid, sidx, detail, after, n - 1);
        if conn_matches(conns[n - 1], iid, stid, sidx, detail, after) {
            prev.push(Dispatchee::Conn((n - 1) as usize))
        } else {
            prev
        }
    }
}

/// The dispatch order of one emission: the class handler first when the
/// signal runs first, then the connections that did not ask to run late in
/// registration order, the class handler at its late position when the
/// signal runs last, then the late connections in registration order.
pub open spec fn spec_plan(
    flags: SignalFlags,
    has_class: bool,
    conns: Seq<ConnModel>,
    iid: usize,
    stid: usize,
    sidx: int,
    detail: Option<Seq<char>>,
) -> Seq<Dispatchee> {
    (if flags.run_first && has_class {
        seq![Dispatchee::Class]
    } else {
        Seq::empty()
    }) + spec_matching(conns, iid, stid, sidx, detail, false, conns.len() as int) + (
    if flags.run_last && has_class {
        seq![Dispatchee::Class]
    } else {
        Seq::empty()
    }) + spec_matching(conns, iid, stid, sidx, detail, true, conns.len() as int)
}

/// One accumulation step: the new result and whether the emission stops.
pub open spec fn spec_accumulate(a: Accumulator, v: ValModel) -> (Option<ValModel>, bool) {
    match a {
        Accumulator::FirstWins => (Some(v), true),
        Accumulator::TrueHandled => (Some(v), v == ValModel::Bool(true)),
    }
}

/// The runtime after one property value of one instance is overwritten.
pub open spec fn spec_commit(rt: RtModel, iid: usize, idx: int, v: ValModel) -> RtModel {
    RtModel {
        insts: rt.insts.update(
            iid as int,
            InstModel {
                values: rt.insts[iid as int].values.update(idx, v),
                ..rt.insts[iid as int]
            },
        ),
        ..rt
    }
}

/// The runtime after one dispatch-log record is appended.
pub open spec fn spec_log(rt: RtModel, tag: u64, args: Seq<ValModel>) -> RtModel {
    RtModel { log: rt.log.push(LogModel { tag, args }), ..rt }
}

/// Runs one handler: the new runtime, the handler's return value, and
/// whether it suppressed the rest of the emission.
pub open spec fn spec_run_handler(
    rt: RtModel,
    iid: usize,
    h: HandlerModel,
    args: Seq<ValModel>,
    fuel: u64,
) -> (RtModel, Option<ValModel>, bool)
    decreases fuel, 0int, 0int, 0int,
{
    match h {
        HandlerModel::Log { tag, ret } => (spec_log(rt, tag, args), ret, false),
        HandlerModel::LogStop { tag, ret } => (spec_log(rt, tag, args), ret, true),
        HandlerModel::ReplaceEmit { prop, signal } => {
            if (iid as int) < rt.insts.len() && rt.insts[iid as int].alive && args.len() >= 1 {
                let tid2 = rt.insts[iid as int].type_id;
                match spec_find_prop(rt.classes, tid2, prop) {
                    Some(idx) => if 0 <= idx < rt.insts[iid as int].values.len() {
                        let oldv = rt.insts[iid as int].values[idx];
                        let rt1 = spec_commit(rt, iid, idx, args[0]);
                        let rt2 = if fuel >= 1 {
                            spec_emit(rt1, iid, signal, None, seq![args[0]], (fuel - 1) as u64).0
                        } else {
                            rt1
                        };
                        (rt2, Some(oldv), false)
                    } else {
                        (rt, None, false)
                    },
                    None => (rt, None, false),
                }
            } else {
                (rt, None, false)
            }
        },
    }
}

/// Runs the head of the plan and continues with the rest unless the handler
/// or the accumulator stopped the emission.
pub open spec fn spec_run_step(
    rt: RtModel,
    iid: usize,
    ch: Option<HandlerModel>,
    acc_cfg: Option<Accumulator>,
    plan: Seq<Dispatchee>,
    args: Seq<ValModel>,
    acc: Option<ValModel>,
    fuel: u64,
    h: HandlerModel,
) -> (RtModel, Option<ValModel>)
    decreases fuel, 0int, plan.len(), 0int,
{
    if plan.len() == 0 {
        (rt, acc)
    } else {
        let (rt1, ret, hstop) = spec_run_handler(rt, iid, h, args, fuel);
        let step = match ret {
            None => (acc, false),
            Some(v) => match acc_cfg {
                None => (Some(v), false),
                Some(a) => spec_accumulate(a, v),
            },
        };
        if hstop || step.1 {
            (rt1, step.0)
        } else {
            spec_run_plan(rt1, iid, ch, acc_cfg, plan.drop_first(), args, step.0, fuel)
        }
    }
}

/// Runs a dispatch plan in order, threading the runtime and the accumulated
/// return value. A plan entry that no longer resolves (a class position
/// without a class handler, a connection identifier out of range) is
/// skipped.
pub open spec fn spec_run_plan(
    rt: RtModel,
    iid: usize,
    ch: Option<HandlerModel>,
    acc_cfg: Option<Accumulator>,
    plan: Seq<Dispatchee>,
    args: Seq<ValModel>,
    acc: Option<ValModel>,
    fuel: u64,
) -> (RtModel, Option<ValModel>)
    decreases fuel, 0int, plan.len(), 1int,
{
    if plan.len() == 0 {
        (rt, acc)
    } else {
        match plan[0] {
            Dispatchee::Class => match ch {
                Some(h) => spec_run_step(rt, iid, ch, acc_cfg, plan, args, acc, fuel, h),
                None => spec_run_plan(rt, iid, ch, acc_cfg, plan.drop_first(), args, acc, fuel),
            },
            Dispatchee::Conn(ci) => if (ci as int) < rt.conns.len() {
                spec_run_step(
                    rt,
                    iid,
                    ch,
                    acc_cfg,
                    plan,
                    args,
                    acc,
                    fuel,
                    rt.conns[ci as int].handler,
                )
            } else {
                spec_run_plan(rt, iid, ch, acc_cfg, plan.drop_first(), args, acc, fuel)
            },
        }
    }
}

/// One whole emission: resolution, arity and argument validation, dispatch,
/// and the final result. Validation failures leave the runtime unchanged
/// and dispatch nothing. A valued signal whose dispatch produced no value
/// returns the zero value of its return type.
pub open spec fn spec_emit(
    rt: RtModel,
    iid: usize,
    name: Seq<char>,
    detail: Option<Seq<char>>,
    args: Seq<ValModel>,
    fuel: u64,
) -> (RtModel, Result<Option<ValModel>, SignalError>)
    decreases fuel, 1int, 0int, 0int,
{
    if !((iid as int) < rt.insts.len() && rt.insts[iid as int].alive) {
        (rt, Err(SignalError::NotFound))
    } else {
        let tid = rt.insts[iid as int].type_id;
        match spec_find_signal(rt.classes, tid, name) {
            None => (rt, Err(SignalError::NotFound)),
            Some((stid, sidx)) => {
                if !((stid as int) < rt.classes.len() && 0 <= sidx < rt.classes[stid
                    as int].signals.len()) {
                    (rt, Err(SignalError::NotFound))
                } else {
                    let sig = rt.classes[stid as int].signals[sidx];
                    if args.len() != sig.args.len() {
                        (rt, Err(SignalError::ArityMismatch))
                    } else {
                        match spec_validate_args(rt.classes, rt.insts, sig.args, args) {
                            Err(i) => (rt, Err(SignalError::ArgTypeMismatch(i as usize))),
                            Ok(vargs) => {
                                let plan = spec_plan(
                                    sig.flags,
                                    sig.class_handler is Some,
                                    rt.conns,
                                    iid,
                                    stid,
                                    sidx,
                                    detail,
                                );
                                let outcome = spec_run_plan(
                                    rt,
                                    iid,
                                    sig.class_handler,
                                    sig.accumulator,
                                    plan,
                                    vargs,
                                    None,
                                    fuel,
                                );
                                let res = match sig.ret {
                                    None => None,
                                    Some(vt) => match outcome.1 {
                                        Some(v) => Some(v),
                                        None => Some(spec_default_value(vt)),
                                    },
                                };
                                (outcome.0, Ok(res))
                            },
                        }
                    }
                }
            }
        }
    }
}

/// The reentrancy budget of one outermost emission: how deeply handlers may
/// emit further signals before an inner emission is skipped.
pub const EMIT_DEPTH_LIMIT: u64 = 16;

/// One exec accumulation step.
fn apply_accumulator(a: Accumulator, v: Value) -> (r: (Option<Value>, bool))
    ensures
        (opt_value_view(r.0), r.1) == spec_accumulate(a, v@),
{
    match a {
        Accumulator::FirstWins => (Some(v), true),
        Accumulator::TrueHandled => {
            let stop = matches!(&v, Value::Bool(true));
            (Some(v), stop)
        },
    }
}

impl Runtime {
    /// Subscribes a handler to a signal of a live instance, optionally
    /// filtered to one detail, in the early (`after == false`) or late
    /// group. The handler's shape must conform to the signal's declared
    /// types. Returns the connection identifier: connections are numbered
    /// in registration order and identifiers are never reused.
    pub fn connect(
        &mut self,
        iid: usize,
        signal: &String,
        detail: Option<String>,
        after: bool,
        handler: Handler,
    ) -> (r: Result<usize, SignalError>)
        requires
            old(self).wf(),
        ensures
            final(self).wf(),
            ({
                let om = old(self)@;
                let live = (iid as int) < om.insts.len() && om.insts[iid as int].alive;
                match r {
                    Ok(cid) => live && (spec_find_signal(
                        om.classes,
                        om.insts[iid as int].type_id,
                        signal@,
                    ) matches Some((stid, sidx)) && spec_handler_conforms(
                        om.classes,
                        om.insts,
                        om.insts[iid as int].type_id,
                        handler@,
                        om.classes[stid as int].signals[sidx],
                    ) && cid == om.conns.len() && final(self)@ == (RtModel {
                        conns: om.conns.push(
                            ConnModel {
                                instance: iid,
                                sig_type: stid,
                                sig_index: sidx as usize,
                                detail: opt_string_view(detail),
                                after,
                                blocked: false,
                                disconnected: false,
                                handler: handler@,
                            },
                        ),
                        ..om
                    })),
                    Err(e) => final(self)@ == om && ((!live && e == SignalError::NotFound) || (live
                        && spec_find_signal(om.classes, om.insts[iid as int].type_id, signal@)
                        is None && e == SignalError::NotFound) || (live && (spec_find_signal(
                        om.classes,
                        om.insts[iid as int].type_id,
                        signal@,
                    ) matches Some((stid, sidx)) && !spec_handler_conforms(
                        om.classes,
                        om.insts,
                        om.insts[iid as int].type_id,
                        handler@,
                        om.classes[stid as int].signals[sidx],
                    )) && e == SignalError::TypeMismatch)),
                }
            }),
    {
        let ghost om = self@;
        let tid = match self.type_of(iid) {
            Some(t) => t,
            None => {
                return Err(SignalError::NotFound);
            },
        };
        let (stid, sidx) = match self.find_signal(tid, signal) {
            Some(p) => p,
            None => {
                return Err(SignalError::NotFound);
            },
        };
        proof {
            lemma_find_signal_bounds(om.classes, tid, signal@);
            assert(om.classes[stid as int] == self.classes@[stid as int]@);
            assert(om.classes[stid as int].signals[sidx as int] == self.classes@[stid
                as int]@.signals[sidx as int]);
        }
        let conforms = {
            let sig = &self.classes[stid].signals[sidx];
            self.handler_conforms(tid, &handler, sig)
        };
        if !conforms {
            return Err(SignalError::TypeMismatch);
        }
        let cid = self.connections.len();
        self.connections.push(
            Connection {
                instance: iid,
                sig_type: stid,
                sig_index: sidx,
                detail,
                after,
                blocked: false,
                disconnected: false,
                handler,
            },
        );
        proof {
            assert(self@.conns =~= om.conns.push(self.connections@[cid as int]@));
            assert(self@ =~= RtModel { conns: om.conns.push(self.connections@[cid as int]@), ..om });
            assert(rt_wf(self@));
        }
        Ok(cid)
    }

    /// Blocks a connection: it keeps existing but takes no part in dispatch
    /// until unblocked. Blocking an already-blocked connection changes
    /// nothing.
    pub fn block_signal(&mut self, cid: usize) -> (r: Result<(), SignalError>)
        requires
            old(self).wf(),
        ensures
            final(self).wf(),
            ({
                let om = old(self)@;
                match r {
                    Ok(_) => (cid as int) < om.conns.len() && !om.conns[cid as int].disconnected
                        && final(self)@ == (RtModel {
                        conns: om.conns.update(
                            cid as int,
                            ConnModel { blocked: true, ..om.conns[cid as int] },
                        ),
                        ..om
                    }),
                    Err(e) => final(self)@ == om && (((cid as int) >= om.conns.len() && e
                        == SignalError::NotFound) || ((cid as int) < om.conns.len() && om.conns[cid
                        as int].disconnected && e == SignalError::AlreadyDisconnected)),
                }
            }),
    {
        self.set_conn_state(cid, true)
    }

    /// Unblocks a connection; unblocking a connection that is not blocked
    /// changes nothing.
    pub fn unblock_signal(&mut self, cid: usize) -> (r: Result<(), SignalError>)
        requires
            old(self).wf(),
        ensures
            final(self).wf(),
            ({
                let om = old(self)@;
                match r {
                    Ok(_) => (cid as int) < om.conns.len() && !om.conns[cid as int].disconnected
                        && final(self)@ == (RtModel {
                        conns: om.conns.update(
                            cid as int,
                            ConnModel { blocked: false, ..om.conns[cid as int] },
                        ),
                        ..om
                    }),
                    Err(e) => final(self)@ == om && (((cid as int) >= om.conns.len() && e
                        == SignalError::NotFound) || ((cid as int) < om.conns.len() && om.conns[cid
                        as int].disconnected && e == SignalError::AlreadyDisconnected)),
                }
            }),
    {
        self.set_conn_state(cid, false)
    }

    /// Disconnects a connection for good: it never takes part in dispatch
    /// again, and every later operation on its identifier fails.
    pub fn disconnect(&mut self, cid: usize) -> (r: Result<(), SignalError>)
        requires
            old(self).wf(),
        ensures
            final(self).wf(),
            ({
                let om = old(self)@;
                match r {
                    Ok(_) => (cid as int) < om.conns.len() && !om.conns[cid as int].disconnected
                        && final(self)@ == (RtModel {
                        conns: om.conns.update(
                            cid as int,
                            ConnModel {
                                blocked: om.conns[cid as int].blocked,
                                disconnected: true,
                                ..om.conns[cid as int]
                            },
                        ),
                        ..om
                    }),
                    Err(e) => final(self)@ == om && (((cid as int) >= om.conns.len() && e
                        == SignalError::NotFound) || ((cid as int) < om.conns.len() && om.conns[cid
                        as int].disconnected && e == SignalError::AlreadyDisconnected)),
                }
            }),
    {
        let ghost om = self@;
        if cid >= self.connections.len() {
            return Err(SignalError::NotFound);
        }
        proof {
            assert(om.conns[cid as int] == self.connections@[cid as int]@);
        }
        if self.connections[cid].disconnected {
            return Err(SignalError::AlreadyDisconnected);
        }
        let ghost beforev = self.connections@;
        {
            let c = &mut self.connections[cid];
            c.disconnected = true;
        }
        proof {
            let cm2 = ConnModel {
                blocked: om.conns[cid as int].blocked,
                disconnected: true,
                ..om.conns[cid as int]
            };
            assert forall|x: int| 0 <= x < self@.conns.len() implies #[trigger] self@.conns[x]
                == om.conns.update(cid as int, cm2)[x] by {
                assert(self@.conns[x] == self.connections@[x]@);
                if x != cid as int {
                    assert(self.connections@[x] == beforev[x]);
                    assert(om.conns[x] == beforev[x]@);
                }
            }
            assert(self@.conns =~= om.conns.update(cid as int, cm2));
            assert(self@ =~= RtModel { conns: om.conns.update(cid as int, cm2), ..om });
            assert(rt_wf(self@));
        }
        Ok(())
    }

    /// Sets the blocked flag of a connection that is not disconnected.
    fn set_conn_state(&mut self, cid: usize, blocked: bool) -> (r: Result<(), SignalError>)
        requires
            old(self).wf(),
        ensures
            final(self).wf(),
            ({
                let om = old(self)@;
                match r {
                    Ok(_) => (cid as int) < om.conns.len() && !om.conns[cid as int].disconnected
                        && final(self)@ == (RtModel {
                        conns: om.conns.update(
                            cid as int,
                            ConnModel { blocked, ..om.conns[cid as int] },
                        ),
                        ..om
                    }),
                    Err(e) => final(self)@ == om && (((cid as int) >= om.conns.len() && e
                        == SignalError::NotFound) || ((cid as int) < om.conns.len() && om.conns[cid
                        as int].disconnected && e == SignalError::AlreadyDisconnected)),
                }
            }),
    {
        let ghost om = self@;
        if cid >= self.connections.len() {
            return Err(SignalError::NotFound);
        }
        proof {
            assert(om.conns[cid as int] == self.connections@[cid as int]@);
        }
        if self.connections[cid].disconnected {
            return Err(SignalError::AlreadyDisconnected);
        }
        let ghost beforev = self.connections@;
        {
            let c = &mut self.connections[cid];
            c.blocked = blocked;
        }
        proof {
            let cm2 = ConnModel { blocked, ..om.conns[cid as int] };
            assert forall|x: int| 0 <= x < self@.conns.len() implies #[trigger] self@.conns[x]
                == om.conns.update(cid as int, cm2)[x] by {
                assert(self@.conns[x] == self.connections@[x]@);
                if x != cid as int {
                    assert(self.connections@[x] == beforev[x]);
                    assert(om.conns[x] == beforev[x]@);
                }
            }
            assert(self@.conns =~= om.conns.update(cid as int, cm2));
            assert(self@ =~= RtModel { conns: om.conns.update(cid as int, cm2), ..om });
            assert(rt_wf(self@));
        }
        Ok(())
    }

    /// Builds the dispatch plan of one emission.
    fn build_plan(
        &self,
        flags: SignalFlags,
        has_class: bool,
        iid: usize,
        stid: usize,
        sidx: usize,
        detail: Option<&String>,
    ) -> (plan: Vec<Dispatchee>)
        requires
            self.wf(),
        ensures
            plan@ == spec_plan(
                flags,
                has_class,
                self@.conns,
                iid,
                stid,
                sidx as int,
                opt_str_view(detail),
                ),
    {
        let ghost dm = opt_str_view(detail);
        let mut plan: Vec<Dispatchee> = Vec::new();
        if flags.run_first && has_class {
            plan.push(Dispatchee::Class);
        }
        let ghost part1 = plan@;
        proof {
            assert(part1 =~= (if flags.run_first && has_class {
                seq![Dispatchee::Class]
            } else {
                Seq::<Dispatchee>::empty()
            }));
        }
        let mut k: usize = 0;
        while k < self.connections.len()
            invariant
                self.wf(),
                k <= self.connections@.len(),
                dm == opt_str_view(detail),
                plan@ == part1 + spec_matching(
                    self@.conns,
                    iid,
                    stid,
                    sidx as int,
                    dm,
                    false,
                    k as int,
                ),
            decreases self.connections@.len() - k,
        {
            if self.conn_matches_at(k, iid, stid, sidx, detail, false) {
                plan.push(Dispatchee::Conn(k));
            }
            k = k + 1;
        }
        let ghost part2 = plan@;
        if flags.run_last && has_class {
            plan.push(Dispatchee::Class);
        }
        let ghost part3 = plan@;
        proof {
            assert(part3 =~= part2 + (if flags.run_last && has_class {
                seq![Dispatchee::Class]
            } else {
                Seq::<Dispatchee>::empty()
            }));
        }
        let mut k2: usize = 0;
        while k2 < self.connections.len()
            invariant
                self.wf(),
                k2 <= self.connections@.len(),
                dm == opt_str_view(detail),
                plan@ == part3 + spec_matching(
                    self@.conns,
                    iid,
                    stid,
                    sidx as int,
                    dm,
                    true,
                    k2 as int,
                ),
            decreases self.connections@.len() - k2,
        {
            if self.conn_matches_at(k2, iid, stid, sidx, detail, true) {
                plan.push(Dispatchee::Conn(k2));
            }
            k2 = k2 + 1;
        }
        proof {
            assert(self.connections@.len() == self@.conns.len());
            assert(plan@ =~= spec_plan(
                flags,
                has_class,
                self@.conns,
                iid,
                stid,
                sidx as int,
                dm,
            ));
        }
        plan
    }

    /// Overwrites one stored property value of one instance.
    pub(crate) fn commit_value(&mut self, iid: usize, idx: usize, v: Value)
        requires
            old(self).wf(),
            (iid as int) < old(self)@.insts.len(),
            (idx as int) < old(self)@.insts[iid as int].values.len(),
        ensures
            final(self).wf(),
            final(self)@ == spec_commit(old(self)@, iid, idx as int, v@),
    {
        let ghost om = self@;
        let ghost beforev = self.instances@;
        let ghost vm = v@;
        proof {
            assert(om.insts[iid as int] == self.instances@[iid as int]@);
        }
        let s = &mut self.instances[iid];
        let ghost beforevals = s.values@;
        s.values[idx] = v;
        proof {
            let im2 = InstModel {
                values: om.insts[iid as int].values.update(idx as int, vm),
                ..om.insts[iid as int]
            };
            assert(vals_view(self.instances@[iid as int].values@) =~= om.insts[iid
                as int].values.update(idx as int, vm)) by {
                assert forall|y: int|
                    0 <= y < self.instances@[iid as int].values@.len() implies vals_view(
                    self.instances@[iid as int].values@,
                )[y] == om.insts[iid as int].values.update(idx as int, vm)[y] by {
                    assert(vals_view(self.instances@[iid as int].values@)[y] == self.instances@[iid
                        as int].values@[y]@);
                    if y != idx as int {
                        assert(self.instances@[iid as int].values@[y] == beforevals[y]);
                        assert(om.insts[iid as int].values[y] == beforevals[y]@);
                    }
                }
            }
            assert(self.instances@[iid as int]@ =~= im2);
            assert forall|x: int| 0 <= x < self@.insts.len() implies #[trigger] self@.insts[x]
                == om.insts.update(iid as int, im2)[x] by {
                assert(self@.insts[x] == self.instances@[x]@);
                if x != iid as int {
                    assert(self.instances@[x] == beforev[x]);
                    assert(om.insts[x] == beforev[x]@);
                }
            }
            assert(self@.insts =~= om.insts.update(iid as int, im2));
            assert(self@ =~= spec_commit(om, iid, idx as int, vm));
            assert(rt_wf(self@));
        }
    }

    /// Runs one handler as data: appends to the dispatch log, or replaces a
    /// property and reemits. Returns the handler's value and whether it
    /// stopped the emission.
    fn run_handler(&mut self, iid: usize, h: &Handler, args: &Vec<Value>, fuel: u64) -> (r: (
        Option<Value>,
        bool,
    ))
        requires
            old(self).wf(),
        ensures
            final(self).wf(),
            ({
                let o = spec_run_handler(old(self)@, iid, h@, vals_view(args@), fuel);
                final(self)@ == o.0 && opt_value_view(r.0) == o.1 && r.1 == o.2
            }),
        decreases fuel, 0int, 0int, 0int,
    {
        match h {
            Handler::Log { tag, ret } => {
                let ghost om = self@;
                let entry = LogEntry { tag: *tag, args: duplicate_values(args) };
                proof {
                    assert(entry@ =~= (LogModel { tag: *tag, args: vals_view(args@) })) by {
                        assert(vals_view(entry.args@) =~= vals_view(args@)) by {
                            assert(forall|y: int|
                                0 <= y < args@.len() ==> #[trigger] vals_view(entry.args@)[y]
                                    == entry.args@[y]@);
                            assert(forall|y: int|
                                0 <= y < args@.len() ==> #[trigger] vals_view(args@)[y]
                                    == args@[y]@);
                        }
                    }
                }
                self.dispatch_log.push(entry);
                proof {
                    assert(self@.log =~= om.log.push(
                        LogModel { tag: *tag, args: vals_view(args@) },
                    ));
                    assert(self@ =~= spec_log(om, *tag, vals_view(args@)));
                    assert(rt_wf(self@));
                }
                (
                    match ret {
                        Some(v) => Some(v.duplicate()),
                        None => None,
                    },
                    false,
                )
            },
            Handler::LogStop { tag, ret } => {
                let ghost om = self@;
                let entry = LogEntry { tag: *tag, args: duplicate_values(args) };
                proof {
                    assert(entry@ =~= (LogModel { tag: *tag, args: vals_view(args@) })) by {
                        assert(vals_view(entry.args@) =~= vals_view(args@)) by {
                            assert(forall|y: int|
                                0 <= y < args@.len() ==> #[trigger] vals_view(entry.args@)[y]
                                    == entry.args@[y]@);
                            assert(forall|y: int|
                                0 <= y < args@.len() ==> #[trigger] vals_view(args@)[y]
                                    == args@[y]@);
                        }
                    }
                }
                self.dispatch_log.push(entry);
                proof {
                    assert(self@.log =~= om.log.push(
                        LogModel { tag: *tag, args: vals_view(args@) },
                    ));
                    assert(self@ =~= spec_log(om, *tag, vals_view(args@)));
                    assert(rt_wf(self@));
                }
                (
                    match ret {
                        Some(v) => Some(v.duplicate()),
                        None => None,
                    },
                    true,
                )
            },
            Handler::ReplaceEmit { prop, signal } => {
                let ghost om = self@;
                if !self.is_alive(iid) {
                    return (None, false);
                }
                if args.len() == 0 {
                    return (None, false);
                }
                let tid2 = match self.type_of(iid) {
                    Some(t) => t,
                    None => {
                        proof {
                            assert(false);
                        }
                        return (None, false);
                    },
                };
                let vn = self.instances[iid].values.len();
                proof {
                    assert(om.insts[iid as int] == self.instances@[iid as int]@);
                    assert(spec_all_props(om.classes, tid2).len() == vn as int);
                }
                match self.find_prop_index(tid2, prop) {
                    None => (None, false),
                    Some(idx) => {
                        proof {
                            crate::resolve::lemma_find_prop_in(
                                spec_all_props(om.classes, tid2),
                                prop@,
                            );
                        }
                        let oldv = self.instances[iid].values[idx].duplicate();
                        let v0 = args[0].duplicate();
                        self.commit_value(iid, idx, v0);
                        if fuel >= 1 {
                            let mut inner_args: Vec<Value> = Vec::new();
                            inner_args.push(args[0].duplicate());
                            proof {
                                assert(vals_view(inner_args@) =~= seq![args@[0]@]);
                                assert(vals_view(args@)[0] == args@[0]@);
                            }
                            let _ = self.emit_inner(iid, signal, None, &inner_args, fuel - 1);
                        }
                        (Some(oldv), false)
                    },
                }
            },
        }
    }

    /// Runs the tail of a dispatch plan starting at `pos`, threading the
    /// accumulated return value.
    fn run_plan(
        &mut self,
        iid: usize,
        ch: &Option<Handler>,
        acc_cfg: Option<Accumulator>,
        plan: &Vec<Dispatchee>,
        pos: usize,
        args: &Vec<Value>,
        acc: Option<Value>,
        fuel: u64,
    ) -> (r: Option<Value>)
        requires
            old(self).wf(),
            pos <= plan@.len(),
        ensures
            final(self).wf(),
            ({
                let o = spec_run_plan(
                    old(self)@,
                    iid,
                    opt_handler_view(*ch),
                    acc_cfg,
                    plan@.skip(pos as int),
                    vals_view(args@),
                    opt_value_view(acc),
                    fuel,
                );
                final(self)@ == o.0 && opt_value_view(r) == o.1
            }),
        decreases fuel, 0int, plan@.len() - pos, 1int,
    {
        let ghost om = self@;
        let ghost tail = plan@.skip(pos as int);
        if pos == self.plan_len(plan) {
            proof {
                assert(tail =~= Seq::<Dispatchee>::empty());
            }
            return acc;
        }
        proof {
            assert(tail.len() == plan@.len() - pos);
            assert(tail[0] == plan@[pos as int]);
            assert(tail.drop_first() =~= plan@.skip(pos as int + 1));
        }
        let ghost accm = opt_value_view(acc);
        let ghost chm = opt_handler_view(*ch);
        let ghost argsm = vals_view(args@);
        let h: Handler = match plan[pos] {
            Dispatchee::Class => {
                match ch {
                    Some(hh) => hh.duplicate(),
                    None => {
                        return self.run_plan(iid, ch, acc_cfg, plan, pos + 1, args, acc, fuel);
                    },
                }
            },
            Dispatchee::Conn(ci) => {
                if ci < self.connections.len() {
                    proof {
                        assert(om.conns[ci as int] == self.connections@[ci as int]@);
                    }
                    self.connections[ci].handler.duplicate()
                } else {
                    return self.run_plan(iid, ch, acc_cfg, plan, pos + 1, args, acc, fuel);
                }
            },
        };
        proof {
            assert(spec_run_plan(om, iid, chm, acc_cfg, tail, argsm, accm, fuel)
                == spec_run_step(om, iid, chm, acc_cfg, tail, argsm, accm, fuel, h@));
        }
        let hr = self.run_handler(iid, &h, args, fuel);
        let ghost o_h = spec_run_handler(om, iid, h@, argsm, fuel);
        let hstop = hr.1;
        let step: (Option<Value>, bool) = match hr.0 {
            None => (acc, false),
            Some(v) => match acc_cfg {
                None => (Some(v), false),
                Some(a) => apply_accumulator(a, v),
            },
        };
        let ghost stepm = (match o_h.1 {
            None => (accm, false),
            Some(v) => match acc_cfg {
                None => (Some(v), false),
                Some(a) => spec_accumulate(a, v),
            },
        });
        proof {
            assert(opt_value_view(step.0) == stepm.0 && step.1 == stepm.1);
            assert(self@ == o_h.0);
        }
        if hstop || step.1 {
            proof {
                assert(spec_run_step(om, iid, chm, acc_cfg, tail, argsm, accm, fuel, h@) == (
                o_h.0,
                stepm.0,
                ));
            }
            step.0
        } else {
            self.run_plan(iid, ch, acc_cfg, plan, pos + 1, args, step.0, fuel)
        }
    }

    /// The plan's length (named so the borrow of the plan is visible).
    fn plan_len(&self, plan: &Vec<Dispatchee>) -> (r: usize)
        ensures
            r == plan@.len(),
    {
        plan.len()
    }

    /// Emits a signal on a live instance with an explicit reentrancy
    /// budget.
    pub(crate) fn emit_inner(
        &mut self,
        iid: usize,
        name: &String,
        detail: Option<&String>,
        args: &Vec<Value>,
        fuel: u64,
    ) -> (r: Result<Option<Value>, SignalError>)
        requires
            old(self).wf(),
        ensures
            final(self).wf(),
            ({
                let o = spec_emit(old(self)@, iid, name@, opt_str_view(detail), vals_view(args@), fuel);
                final(self)@ == o.0 && (match r {
                    Ok(v) => o.1 == Ok::<Option<ValModel>, SignalError>(opt_value_view(v)),
                    Err(e) => o.1 == Err::<Option<ValModel>, SignalError>(e),
                })
            }),
        decreases fuel, 1int, 0int, 0int,
    {
        let ghost om = self@;
        let tid = match self.type_of(iid) {
            Some(t) => t,
            None => {
                return Err(SignalError::NotFound);
            },
        };
        let (stid, sidx) = match self.find_signal(tid, name) {
            Some(p) => p,
            None => {
                return Err(SignalError::NotFound);
            },
        };
        proof {
            lemma_find_signal_bounds(om.classes, tid, name@);
            assert(om.classes[stid as int] == self.classes@[stid as int]@);
        }
        let ghost sigm = om.classes[stid as int].signals[sidx as int];
        proof {
            assert(sigm == self.classes@[stid as int]@.signals[sidx as int]);
        }
        if args.len() != self.classes[stid].signals[sidx].arg_types.len() {
            proof {
                assert(vals_view(args@).len() == args@.len());
                assert(sigm.args.len() == self.classes@[stid as int].signals@[sidx
                    as int].arg_types@.len());
            }
            return Err(SignalError::ArityMismatch);
        }
        proof {
            assert(vals_view(args@).len() == args@.len());
            assert(sigm.args == self.classes@[stid as int].signals@[sidx as int].arg_types@);
        }
        let vargs = match self.validate_args(&self.classes[stid].signals[sidx].arg_types, args) {
            Ok(v) => v,
            Err(i) => {
                return Err(SignalError::ArgTypeMismatch(i));
            },
        };
        let (ch, acc_cfg, ret_ty, flags): (
            Option<Handler>,
            Option<Accumulator>,
            Option<crate::values::ValueType>,
            SignalFlags,
        ) = {
            let sig = &self.classes[stid].signals[sidx];
            (
                match &sig.class_handler {
                    Some(hh) => Some(hh.duplicate()),
                    None => None,
                },
                sig.accumulator,
                sig.return_type,
                sig.flags,
            )
        };
        proof {
            assert(opt_handler_view(ch) == sigm.class_handler);
            assert(acc_cfg == sigm.accumulator);
            assert(ret_ty == sigm.ret);
            assert(flags == sigm.flags);
        }
        let plan = self.build_plan(flags, ch.is_some(), iid, stid, sidx, detail);
        proof {
            assert((ch is Some) == (sigm.class_handler is Some));
            assert(plan@.skip(0) =~= plan@);
        }
        let accv = self.run_plan(iid, &ch, acc_cfg, &plan, 0, &vargs, None, fuel);
        match ret_ty {
            None => Ok(None),
            Some(vt) => match accv {
                Some(v) => Ok(Some(v)),
                None => Ok(Some(crate::values::default_value(vt))),
            },
        }
    }

    /// Emits a signal on a live instance: resolves the name (with an
    /// optional detail), validates arity and argument types, dispatches to
    /// the class handler and the connected handlers in order, accumulating
    /// return values, and returns the result: nothing for a unit signal,
    /// the accumulated (or default) value otherwise. Reentrant emission
    /// from handlers is bounded by [`EMIT_DEPTH_LIMIT`]; past the budget an
    /// inner emission is skipped.
    pub fn emit(&mut self, iid: usize, name: &String, detail: Option<&String>, args: &Vec<Value>)
        -> (r: Result<Option<Value>, SignalError>)
        requires
            old(self).wf(),
        ensures
            final(self).wf(),
            ({
                let o = spec_emit(
                    old(self)@,
                    iid,
                    name@,
                    opt_str_view(detail),
                    vals_view(args@),
                    EMIT_DEPTH_LIMIT,
                );
                final(self)@ == o.0 && (match r {
                    Ok(v) => o.1 == Ok::<Option<ValModel>, SignalError>(opt_value_view(v)),
                    Err(e) => o.1 == Err::<Option<ValModel>, SignalError>(e),
                })
            }),
    {
        self.emit_inner(iid, name, detail, args, EMIT_DEPTH_LIMIT)
    }

    /// Whether the connection at `k` takes part in the emission.
    fn conn_matches_at(
        &self,
        k: usize,
        iid: usize,
        stid: usize,
        sidx: usize,
        detail: Option<&String>,
        after: bool,
    ) -> (r: bool)
        requires
            self.wf(),
            (k as int) < self@.conns.len(),
        ensures
            r == conn_matches(
                self@.conns[k as int],
                iid,
                stid,
                sidx as int,
                opt_str_view(detail),
                after,
            ),
    {
        let c = &self.connections[k];
        proof {
            assert(self@.conns[k as int] == self.connections@[k as int]@);
        }
        if c.instance != iid || c.sig_type != stid || c.sig_index != sidx || c.after != after
            || c.blocked || c.disconnected {
            return false;
        }
        match (&c.detail, detail) {
            (Some(d), Some(dd)) => d.eq(dd),
            (Some(_), None) => false,
            (None, _) => true,
        }
    }
}

} // verus!
