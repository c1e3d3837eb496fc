//! Runtime type checking of boxed values: the covariant object rule shared
//! by property assignment and signal arguments, integer range validation,
//! and the return-shape conformance of handlers.

use vstd::prelude::*;

use crate::errors::PropertyError;
use crate::resolve::{spec_all_props, spec_find_prop, spec_is_a};
use crate::runtime::{
    ClassModel, Handler, HandlerModel, InstModel, PropModel, PropertyDescriptor, Runtime, SigModel,
    SignalDescriptor,
};
use crate::values::{opt_value_view, vals_view, ValModel, Value, ValueType};

verus! {

/// Whether value `v` may be stored where a value of type `expected` is
/// declared, and the form in which it is stored.
///
/// Scalars must match exactly (a string-typed "no string" is a string).
/// An object value fits an object type when its static tag is compatible,
/// when it is the "no object" value (absence is universally compatible), or
/// when the dynamic type of the instance it refers to is compatible; in the
/// latter cases the value is retagged to the declared type.
pub open spec fn spec_value_fits(
    classes: Seq<ClassModel>,
    insts: Seq<InstModel>,
    expected: ValueType,
    v: ValModel,
) -> Option<ValModel> {
    match expected {
        ValueType::Bool => match v {
            ValModel::Bool(_) => Some(v),
            _ => None,
        },
        ValueType::Int => match v {
            ValModel::Int(_) => Some(v),
            _ => None,
        },
        ValueType::Str => match v {
            ValModel::Str(_) => Some(v),
            ValModel::StrNone => Some(v),
            _ => None,
        },
        ValueType::Object(t) => match v {
            ValModel::Object { tag, obj } => match obj {
                None => Some(ValModel::Object { tag: t, obj: None }),
                Some(iid) => if spec_is_a(classes, tag, t) {
                    Some(v)
                } else if (iid as int) < insts.len() && spec_is_a(
                    classes,
                    insts[iid as int].type_id,
                    t,
                ) {
                    Some(ValModel::Object { tag: t, obj: Some(iid) })
                } else {
                    None
                },
            },
            _ => None,
        },
    }
}

/// Integer range validation: the value clamped into the descriptor's range,
/// and whether clamping changed it. Non-integer values pass unchanged.
pub open spec fn spec_apply_range(p: PropModel, v: ValModel) -> (ValModel, bool) {
    match v {
        ValModel::Int(i) => if i < p.min {
            (ValModel::Int(p.min), true)
        } else if i > p.max {
            (ValModel::Int(p.max), true)
        } else {
            (v, false)
        },
        _ => (v, false),
    }
}

/// Full validation of a property assignment: flags, type fit, range. The
/// result is the value as it will be stored.
pub open spec fn spec_validate_property(
    classes: Seq<ClassModel>,
    insts: Seq<InstModel>,
    p: PropModel,
    construct: bool,
    v: ValModel,
) -> Result<ValModel, PropertyError> {
    if !p.flags.writable || (!construct && p.flags.construct_only) {
        Err(PropertyError::NotWritable)
    } else {
        match spec_value_fits(classes, insts, p.ty, v) {
            None => Err(PropertyError::TypeMismatch),
            Some(v2) => {
                let (v3, changed) = spec_apply_range(p, v2);
                if changed && !p.flags.lax_validation {
                    Err(PropertyError::ValidationFailed)
                } else {
                    Ok(v3)
                }
            },
        }
    }
}

/// Validation of an argument list against declared types: every argument in
/// order, the result retagged as stored; on failure, the index of the first
/// argument that does not fit.
pub open spec fn spec_validate_args(
    classes: Seq<ClassModel>,
    insts: Seq<InstModel>,
    expected: Seq<ValueType>,
    args: Seq<ValModel>,
) -> Result<Seq<ValModel>, int>
    decreases expected.len(),
{
    if expected.len() == 0 {
        Ok(Seq::empty())
    } else {
        match spec_value_fits(classes, insts, expected[0], args[0]) {
            None => Err(0int),
            Some(v0) => match spec_validate_args(
                classes,
                insts,
                expected.drop_first(),
                args.drop_first(),
            ) {
                Ok(rest) => Ok(seq![v0] + rest),
                Err(i) => Err(i + 1),
            },
        }
    }
}

/// Pointwise characterization of argument validation: success means every
/// argument fits and gives the corresponding stored value; failure names
/// the first argument that does not fit.
pub proof fn lemma_validate_args_char(
    classes: Seq<ClassModel>,
    insts: Seq<InstModel>,
    expected: Seq<ValueType>,
    args: Seq<ValModel>,
)
    requires
        args.len() == expected.len(),
    ensures
        match spec_validate_args(classes, insts, expected, args) {
            Ok(r) => r.len() == expected.len() && (forall|j: int|
                0 <= j < expected.len() ==> spec_value_fits(classes, insts, expected[j], args[j])
                    == Some(r[j])),
            Err(i) => 0 <= i < expected.len() && spec_value_fits(
                classes,
                insts,
                expected[i],
                args[i],
            ) is None && (forall|j: int|
                0 <= j < i ==> spec_value_fits(classes, insts, expected[j], args[j]) is Some),
        },
    decreases expected.len(),
{
    if expected.len() > 0 {
        match spec_value_fits(classes, insts, expected[0], args[0]) {
            None => {},
            Some(v0) => {
                lemma_validate_args_char(classes, insts, expected.drop_first(), args.drop_first());
                assert(forall|j: int|
                    0 <= j < expected.len() - 1 ==> #[trigger] expected.drop_first()[j] == expected[
                        j + 1
                    ]);
                assert(forall|j: int|
                    0 <= j < args.len() - 1 ==> #[trigger] args.drop_first()[j] == args[j + 1]);
                match spec_validate_args(
                    classes,
                    insts,
                    expected.drop_first(),
                    args.drop_first(),
                ) {
                    Ok(rest) => {
                        let r = seq![v0] + rest;
                        assert forall|j: int|
                            0 <= j < expected.len() implies spec_value_fits(
                            classes,
                            insts,
                            expected[j],
                            args[j],
                        ) == Some(r[j]) by {
                            if j >= 1 {
                                assert(r[j] == rest[j - 1]);
                                assert(expected.drop_first()[j - 1] == expected[j]);
                                assert(args.drop_first()[j - 1] == args[j]);
                            }
                        }
                    },
                    Err(i) => {
                        assert(expected.drop_first()[i] == expected[i + 1]);
                        assert(args.drop_first()[i] == args[i + 1]);
                        assert forall|j: int|
                            0 <= j < i + 1 implies spec_value_fits(
                            classes,
                            insts,
                            expected[j],
                            args[j],
                        ) is Some by {
                            if j >= 1 {
                                assert(expected.drop_first()[j - 1] == expected[j]);
                                assert(args.drop_first()[j - 1] == args[j]);
                            }
                        }
                    },
                }
            },
        }
    }
}

/// Whether a handler's return shape conforms to a signal's declared return
/// type: a unit signal takes handlers that return nothing, a valued signal
/// takes handlers whose value fits the declared type.
pub open spec fn spec_ret_conforms(
    classes: Seq<ClassModel>,
    insts: Seq<InstModel>,
    ret: Option<ValModel>,
    want: Option<ValueType>,
) -> bool {
    match want {
        None => ret is None,
        Some(vt) => match ret {
            Some(v) => spec_value_fits(classes, insts, vt, v) is Some,
            None => false,
        },
    }
}

/// Whether a handler may be attached to the given signal on type `tid`:
/// its return shape must conform, and a property-replacing handler needs a
/// resolvable property whose type agrees with the signal's first argument
/// and its return type.
pub open spec fn spec_handler_conforms(
    classes: Seq<ClassModel>,
    insts: Seq<InstModel>,
    tid: usize,
    h: HandlerModel,
    sig: SigModel,
) -> bool {
    match h {
        HandlerModel::Log { tag, ret } => spec_ret_conforms(classes, insts, ret, sig.ret),
        HandlerModel::LogStop { tag, ret } => spec_ret_conforms(classes, insts, ret, sig.ret),
        HandlerModel::ReplaceEmit { prop, signal } => match spec_find_prop(classes, tid, prop) {
            Some(i) => {
                let p = spec_all_props(classes, tid)[i];
                &&& sig.args.len() >= 1
                &&& sig.args[0] == p.ty
                &&& sig.ret == Some(p.ty)
            },
            None => false,
        },
    }
}

impl Runtime {
    /// Checks value `v` against declared type `expected` and returns the
    /// value as it would be stored (retagged for covariant object
    /// assignment), or nothing if it does not fit.
    pub fn value_fits(&self, expected: ValueType, v: &Value) -> (r: Option<Value>)
        requires
            self.wf(),
        ensures
            opt_value_view(r) == spec_value_fits(self@.classes, self@.insts, expected, v@),
    {
        match expected {
            ValueType::Bool => match v {
                Value::Bool(_) => Some(v.duplicate()),
                _ => None,
            },
            ValueType::Int => match v {
                Value::Int(_) => Some(v.duplicate()),
                _ => None,
            },
            ValueType::Str => match v {
                Value::Str(_) => Some(v.duplicate()),
                Value::StrNone => Some(v.duplicate()),
                _ => None,
            },
            ValueType::Object(t) => match v {
                Value::Object { tag, obj } => match obj {
                    None => Some(Value::Object { tag: t, obj: None }),
                    Some(iid) => {
                        if self.is_a(*tag, t) {
                            Some(v.duplicate())
                        } else if *iid < self.instances.len() && self.is_a(
                            self.instances[*iid].type_id,
                            t,
                        ) {
                            proof {
                                assert(self@.insts[*iid as int] == self.instances@[*iid as int]@);
                            }
                            Some(Value::Object { tag: t, obj: Some(*iid) })
                        } else {
                            proof {
                                assert((*iid as int) < self@.insts.len() ==> self@.insts[*iid
                                    as int] == self.instances@[*iid as int]@);
                            }
                            None
                        }
                    },
                },
                _ => None,
            },
        }
    }

    /// Validates one property assignment: flag check, type fit, integer
    /// range validation with clamping under lax validation. Returns the
    /// value as it will be stored.
    pub fn validate_property_value(
        &self,
        d: &PropertyDescriptor,
        construct: bool,
        v: &Value,
    ) -> (r: Result<Value, PropertyError>)
        requires
            self.wf(),
        ensures
            ({
                let s = spec_validate_property(self@.classes, self@.insts, d@, construct, v@);
                match r {
                    Ok(out) => s == Ok::<ValModel, PropertyError>(out@),
                    Err(e) => s == Err::<ValModel, PropertyError>(e),
                }
            }),
    {
        if !d.flags.writable || (!construct && d.flags.construct_only) {
            return Err(PropertyError::NotWritable);
        }
        match self.value_fits(d.value_type, v) {
            None => Err(PropertyError::TypeMismatch),
            Some(v2) => match v2 {
                Value::Int(i) => {
                    if i < d.min {
                        if d.flags.lax_validation {
                            Ok(Value::Int(d.min))
                        } else {
                            Err(PropertyError::ValidationFailed)
                        }
                    } else if i > d.max {
                        if d.flags.lax_validation {
                            Ok(Value::Int(d.max))
                        } else {
                            Err(PropertyError::ValidationFailed)
                        }
                    } else {
                        Ok(Value::Int(i))
                    }
                },
                other => Ok(other),
            },
        }
    }

    /// Validates an argument list against the declared types, returning the
    /// arguments as stored or the index of the first mismatch.
    pub fn validate_args(&self, expected: &Vec<ValueType>, args: &Vec<Value>) -> (r: Result<
        Vec<Value>,
        usize,
    >)
        requires
            self.wf(),
            expected@.len() == args@.len(),
        ensures
            ({
                let s = spec_validate_args(
                    self@.classes,
                    self@.insts,
                    expected@,
                    vals_view(args@),
                );
                match r {
                    Ok(out) => s == Ok::<Seq<ValModel>, int>(vals_view(out@)),
                    Err(i) => s == Err::<Seq<ValModel>, int>(i as int),
                }
            }),
    {
        let ghost am = vals_view(args@);
        proof {
            lemma_validate_args_char(self@.classes, self@.insts, expected@, am);
        }
        let mut out: Vec<Value> = Vec::new();
        let mut i: usize = 0;
        while i < expected.len()
            invariant
                self.wf(),
                expected@.len() == args@.len(),
                am == vals_view(args@),
                i <= expected@.len(),
                out@.len() == i,
                forall|j: int|
                    0 <= j < i ==> #[trigger] spec_value_fits(
                        self@.classes,
                        self@.insts,
                        expected@[j],
                        am[j],
                    ) == Some(out@[j]@),
            decreases expected@.len() - i,
        {
            proof {
                assert(am[i as int] == args@[i as int]@);
            }
            match self.value_fits(expected[i], &args[i]) {
                Some(v) => {
                    out.push(v);
                },
                None => {
                    proof {
                        lemma_validate_args_char(self@.classes, self@.insts, expected@, am);
                        assert(spec_value_fits(
                            self@.classes,
                            self@.insts,
                            expected@[i as int],
                            am[i as int],
                        ) is None);
                        match spec_validate_args(self@.classes, self@.insts, expected@, am) {
                            Ok(so) => {
                                assert(spec_value_fits(
                                    self@.classes,
                                    self@.insts,
                                    expected@[i as int],
                                    am[i as int],
                                ) == Some(so[i as int]));
                            },
                            Err(ip) => {
                                if ip < i as int {
                                    assert(spec_value_fits(
                                        self@.classes,
                                        self@.insts,
                                        expected@[ip],
                                        am[ip],
                                    ) is Some);
                                } else if ip > i as int {
                                    assert(spec_value_fits(
                                        self@.classes,
                                        self@.insts,
                                        expected@[i as int],
                                        am[i as int],
                                    ) is Some);
                                }
                            },
                        }
                    }
                    return Err(i);
                },
            }
            i = i + 1;
        }
        proof {
            lemma_validate_args_char(self@.classes, self@.insts, expected@, am);
            match spec_validate_args(self@.classes, self@.insts, expected@, am) {
                Ok(so) => {
                    assert forall|j: int| 0 <= j < out@.len() implies so[j] == vals_view(out@)[j] by {
                        assert(spec_value_fits(self@.classes, self@.insts, expected@[j], am[j])
                            == Some(out@[j]@));
                        assert(vals_view(out@)[j] == out@[j]@);
                    }
                    assert(so =~= vals_view(out@));
                },
                Err(ip) => {
                    assert(spec_value_fits(self@.classes, self@.insts, expected@[ip], am[ip])
                        is Some);
                },
            }
        }
        Ok(out)
    }

    /// Whether `h` may be attached to signal `sig` resolved on type `tid`.
    pub fn handler_conforms(&self, tid: usize, h: &Handler, sig: &SignalDescriptor) -> (r: bool)
        requires
            self.wf(),
        ensures
            r == spec_handler_conforms(self@.classes, self@.insts, tid, h@, sig@),
    {
        match h {
            Handler::Log { tag: _, ret } => self.ret_conforms(ret, &sig.return_type),
            Handler::LogStop { tag: _, ret } => self.ret_conforms(ret, &sig.return_type),
            Handler::ReplaceEmit { prop, signal: _ } => match self.find_property(tid, prop) {
                Some(d) => {
                    sig.arg_types.len() >= 1 && sig.arg_types[0] == d.value_type && (
                    match &sig.return_type {
                        Some(rt) => *rt == d.value_type,
                        None => false,
                    })
                },
                None => false,
            },
        }
    }

    /// Whether a handler return shape conforms to a declared return type.
    fn ret_conforms(&self, ret: &Option<Value>, want: &Option<ValueType>) -> (r: bool)
        requires
            self.wf(),
        ensures
            r == spec_ret_conforms(self@.classes, self@.insts, opt_value_view(*ret), *want),
    {
        match want {
            None => ret.is_none(),
            Some(vt) => match ret {
                Some(v) => self.value_fits(*vt, v).is_some(),
                None => false,
            },
        }
    }
}

} // verus!
