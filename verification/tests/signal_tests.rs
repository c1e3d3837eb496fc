//! Tests of the signal bus: connection life cycle, ordered dispatch,
//! blocking, accumulators, reentrant class handlers, the reserved change
//! notification, and property bindings.

use objrt::errors::SignalError;
use objrt::bindings::BindingBuilder;
use objrt::runtime::{
    Accumulator, Handler, PropertyDescriptor, PropertyFlags, Runtime, SignalFlags, Transform,
};
use objrt::values::{Value, ValueType};

fn rw_flags() -> PropertyFlags {
    PropertyFlags { readable: true, writable: true, construct_only: false, lax_validation: false }
}

fn plain_flags() -> SignalFlags {
    SignalFlags { run_first: false, run_last: true, action: false }
}

/// A registry with one concrete type carrying a string property "name", a
/// unit signal "name-changed", an action signal "change-name" (class
/// handler renames and returns the old name), and a valued signal "probe"
/// used by the dispatch tests.
fn setup() -> (Runtime, usize) {
    let mut rt = Runtime::new();
    let root = rt.register(None, vec![], false, true, false).unwrap();
    let t = rt.register(Some(root), vec![], false, true, false).unwrap();
    rt.install_properties(
        t,
        vec![PropertyDescriptor {
            name: "name".to_string(),
            value_type: ValueType::Str,
            flags: rw_flags(),
            default: Value::StrNone,
            min: 0,
            max: 0,
        }],
    )
    .unwrap();
    rt.add_signal(t, "name-changed".to_string(), plain_flags(), vec![ValueType::Str], None)
        .unwrap();
    rt.add_signal_with_class_handler(
        t,
        "change-name".to_string(),
        SignalFlags { run_first: false, run_last: true, action: true },
        vec![ValueType::Str],
        Some(ValueType::Str),
        Handler::ReplaceEmit { prop: "name".to_string(), signal: "name-changed".to_string() },
    )
    .unwrap();
    rt.add_signal(t, "probe".to_string(), plain_flags(), vec![ValueType::Int], Some(ValueType::Bool))
        .unwrap();
    (rt, t)
}

fn log_tags(rt: &Runtime) -> Vec<u64> {
    let mut tags = Vec::new();
    for e in rt.dispatch_log.iter() {
        tags.push(e.tag);
    }
    tags
}

#[test]
fn test_signals() {
    let (mut rt, t) = setup();
    let obj = rt
        .new_instance(t, vec![("name".to_string(), Value::Str("old-name".to_string()))])
        .unwrap();

    rt.connect(
        obj,
        &"name-changed".to_string(),
        None,
        false,
        Handler::Log { tag: 7, ret: None },
    )
    .unwrap();

    assert_eq!(
        rt.get_property(obj, &"name".to_string()).unwrap(),
        Value::Str("old-name".to_string())
    );
    assert_eq!(rt.dispatch_log.len(), 0);

    let old_name = rt
        .emit(
            obj,
            &"change-name".to_string(),
            None,
            &vec![Value::Str("new-name".to_string())],
        )
        .unwrap();
    assert_eq!(old_name, Some(Value::Str("old-name".to_string())));

    // the handler observed the change, with the new name as its argument
    assert_eq!(rt.dispatch_log.len(), 1);
    assert_eq!(rt.dispatch_log[0].tag, 7);
    assert_eq!(rt.dispatch_log[0].args, vec![Value::Str("new-name".to_string())]);
    // and the property now holds the new name
    assert_eq!(
        rt.get_property(obj, &"name".to_string()).unwrap(),
        Value::Str("new-name".to_string())
    );
}

#[test]
fn two_handlers_fire_in_registration_order_and_blocking_skips() {
    let (mut rt, t) = setup();
    let obj = rt.new_instance(t, vec![]).unwrap();
    let first = rt
        .connect(obj, &"name-changed".to_string(), None, false, Handler::Log { tag: 1, ret: None })
        .unwrap();
    let _second = rt
        .connect(obj, &"name-changed".to_string(), None, false, Handler::Log { tag: 2, ret: None })
        .unwrap();
    rt.emit(obj, &"name-changed".to_string(), None, &vec![Value::Str("x".to_string())]).unwrap();
    assert_eq!(log_tags(&rt), vec![1, 2]);
    // blocking the first and reemitting invokes only the second
    rt.block_signal(first).unwrap();
    rt.emit(obj, &"name-changed".to_string(), None, &vec![Value::Str("y".to_string())]).unwrap();
    assert_eq!(log_tags(&rt), vec![1, 2, 2]);
    // unblocking restores it
    rt.unblock_signal(first).unwrap();
    rt.emit(obj, &"name-changed".to_string(), None, &vec![Value::Str("z".to_string())]).unwrap();
    assert_eq!(log_tags(&rt), vec![1, 2, 2, 1, 2]);
}

#[test]
fn late_handlers_run_after_early_ones() {
    let (mut rt, t) = setup();
    let obj = rt.new_instance(t, vec![]).unwrap();
    rt.connect(obj, &"name-changed".to_string(), None, true, Handler::Log { tag: 9, ret: None })
        .unwrap();
    rt.connect(obj, &"name-changed".to_string(), None, false, Handler::Log { tag: 1, ret: None })
        .unwrap();
    rt.emit(obj, &"name-changed".to_string(), None, &vec![Value::StrNone]).unwrap();
    assert_eq!(log_tags(&rt), vec![1, 9]);
}

#[test]
fn emit_arity_mismatch_dispatches_nothing() {
    let (mut rt, t) = setup();
    let obj = rt.new_instance(t, vec![]).unwrap();
    rt.connect(obj, &"name-changed".to_string(), None, false, Handler::Log { tag: 1, ret: None })
        .unwrap();
    assert_eq!(
        rt.emit(obj, &"name-changed".to_string(), None, &vec![]),
        Err(SignalError::ArityMismatch)
    );
    assert_eq!(
        rt.emit(
            obj,
            &"name-changed".to_string(),
            None,
            &vec![Value::StrNone, Value::StrNone]
        ),
        Err(SignalError::ArityMismatch)
    );
    assert_eq!(rt.dispatch_log.len(), 0);
}

#[test]
fn emit_validates_argument_types() {
    let (mut rt, t) = setup();
    let obj = rt.new_instance(t, vec![]).unwrap();
    assert_eq!(
        rt.emit(obj, &"name-changed".to_string(), None, &vec![Value::Int(3)]),
        Err(SignalError::ArgTypeMismatch(0))
    );
    assert_eq!(
        rt.emit(obj, &"unknown-signal".to_string(), None, &vec![]),
        Err(SignalError::NotFound)
    );
}

#[test]
fn accumulator_first_wins_stops_after_first_value() {
    let (mut rt, t) = setup();
    rt.add_signal_with_accumulator(
        t,
        "pick".to_string(),
        plain_flags(),
        vec![],
        Some(ValueType::Int),
        Accumulator::FirstWins,
    )
    .unwrap();
    let obj = rt.new_instance(t, vec![]).unwrap();
    rt.connect(obj, &"pick".to_string(), None, false, Handler::Log {
        tag: 1,
        ret: Some(Value::Int(10)),
    })
    .unwrap();
    rt.connect(obj, &"pick".to_string(), None, false, Handler::Log {
        tag: 2,
        ret: Some(Value::Int(20)),
    })
    .unwrap();
    let r = rt.emit(obj, &"pick".to_string(), None, &vec![]).unwrap();
    assert_eq!(r, Some(Value::Int(10)));
    // the second handler never ran
    assert_eq!(log_tags(&rt), vec![1]);
}

#[test]
fn accumulator_true_handled_stops_on_true() {
    let (mut rt, t) = setup();
    rt.add_signal_with_accumulator(
        t,
        "handled".to_string(),
        plain_flags(),
        vec![],
        Some(ValueType::Bool),
        Accumulator::TrueHandled,
    )
    .unwrap();
    let obj = rt.new_instance(t, vec![]).unwrap();
    rt.connect(obj, &"handled".to_string(), None, false, Handler::Log {
        tag: 1,
        ret: Some(Value::Bool(false)),
    })
    .unwrap();
    rt.connect(obj, &"handled".to_string(), None, false, Handler::Log {
        tag: 2,
        ret: Some(Value::Bool(true)),
    })
    .unwrap();
    rt.connect(obj, &"handled".to_string(), None, false, Handler::Log {
        tag: 3,
        ret: Some(Value::Bool(true)),
    })
    .unwrap();
    let r = rt.emit(obj, &"handled".to_string(), None, &vec![]).unwrap();
    assert_eq!(r, Some(Value::Bool(true)));
    // the third handler must not be invoked after the stop
    assert_eq!(log_tags(&rt), vec![1, 2]);
}

#[test]
fn in_handler_stop_suppresses_the_rest() {
    let (mut rt, t) = setup();
    let obj = rt.new_instance(t, vec![]).unwrap();
    rt.connect(obj, &"name-changed".to_string(), None, false, Handler::LogStop {
        tag: 1,
        ret: None,
    })
    .unwrap();
    rt.connect(obj, &"name-changed".to_string(), None, false, Handler::Log { tag: 2, ret: None })
        .unwrap();
    rt.emit(obj, &"name-changed".to_string(), None, &vec![Value::StrNone]).unwrap();
    assert_eq!(log_tags(&rt), vec![1]);
}

#[test]
fn valued_signal_without_handlers_returns_default() {
    let (mut rt, t) = setup();
    let obj = rt.new_instance(t, vec![]).unwrap();
    let r = rt.emit(obj, &"probe".to_string(), None, &vec![Value::Int(0)]).unwrap();
    assert_eq!(r, Some(Value::Bool(false)));
    // a unit signal returns nothing
    let u = rt.emit(obj, &"name-changed".to_string(), None, &vec![Value::StrNone]).unwrap();
    assert_eq!(u, None);
}

#[test]
fn connect_checks_handler_return_shape() {
    let (mut rt, t) = setup();
    let obj = rt.new_instance(t, vec![]).unwrap();
    // a unit signal takes no value-returning handler
    assert_eq!(
        rt.connect(obj, &"name-changed".to_string(), None, false, Handler::Log {
            tag: 1,
            ret: Some(Value::Int(1)),
        }),
        Err(SignalError::TypeMismatch)
    );
    // a valued signal takes no silent handler
    assert_eq!(
        rt.connect(obj, &"probe".to_string(), None, false, Handler::Log { tag: 1, ret: None }),
        Err(SignalError::TypeMismatch)
    );
    // a handler whose value fits is accepted
    assert!(rt
        .connect(obj, &"probe".to_string(), None, false, Handler::Log {
            tag: 1,
            ret: Some(Value::Bool(true)),
        })
        .is_ok());
    // unknown signals are reported
    assert_eq!(
        rt.connect(obj, &"nosuch".to_string(), None, false, Handler::Log { tag: 1, ret: None }),
        Err(SignalError::NotFound)
    );
}

#[test]
fn disconnect_is_terminal() {
    let (mut rt, t) = setup();
    let obj = rt.new_instance(t, vec![]).unwrap();
    let cid = rt
        .connect(obj, &"name-changed".to_string(), None, false, Handler::Log { tag: 1, ret: None })
        .unwrap();
    rt.disconnect(cid).unwrap();
    rt.emit(obj, &"name-changed".to_string(), None, &vec![Value::StrNone]).unwrap();
    assert_eq!(rt.dispatch_log.len(), 0);
    assert_eq!(rt.disconnect(cid), Err(SignalError::AlreadyDisconnected));
    assert_eq!(rt.block_signal(cid), Err(SignalError::AlreadyDisconnected));
    assert_eq!(rt.unblock_signal(cid), Err(SignalError::AlreadyDisconnected));
    assert_eq!(rt.block_signal(999), Err(SignalError::NotFound));
}

#[test]
fn property_change_fires_detailed_notification() {
    let (mut rt, t) = setup();
    let obj = rt.new_instance(t, vec![]).unwrap();
    // a handler filtered to the changed property fires
    rt.connect(
        obj,
        &"notify".to_string(),
        Some("name".to_string()),
        false,
        Handler::Log { tag: 5, ret: None },
    )
    .unwrap();
    // a handler filtered to another property stays silent
    rt.connect(
        obj,
        &"notify".to_string(),
        Some("other".to_string()),
        false,
        Handler::Log { tag: 6, ret: None },
    )
    .unwrap();
    // an unfiltered handler hears every change
    rt.connect(obj, &"notify".to_string(), None, false, Handler::Log { tag: 8, ret: None })
        .unwrap();
    rt.set_property(obj, &"name".to_string(), &Value::Str("a".to_string())).unwrap();
    assert_eq!(log_tags(&rt), vec![5, 8]);
    assert_eq!(rt.dispatch_log[0].args, vec![Value::Str("name".to_string())]);
    // notify by hand reaches the same handlers
    rt.notify(obj, &"name".to_string());
    assert_eq!(log_tags(&rt), vec![5, 8, 5, 8]);
}

#[test]
fn binding_propagates_and_transforms() {
    let mut rt = Runtime::new();
    let root = rt.register(None, vec![], false, true, false).unwrap();
    let t = rt.register(Some(root), vec![], false, true, false).unwrap();
    rt.install_properties(
        t,
        vec![
            PropertyDescriptor {
                name: "a".to_string(),
                value_type: ValueType::Int,
                flags: rw_flags(),
                default: Value::Int(0),
                min: -1000,
                max: 1000,
            },
            PropertyDescriptor {
                name: "b".to_string(),
                value_type: ValueType::Int,
                flags: rw_flags(),
                default: Value::Int(0),
                min: -1000,
                max: 1000,
            },
        ],
    )
    .unwrap();
    let src = rt.new_instance(t, vec![]).unwrap();
    let dst = rt.new_instance(t, vec![]).unwrap();
    let b = BindingBuilder::new(src, "a".to_string(), dst, "b".to_string())
        .transform_to(Transform::IntAdd(100))
        .transform_from(Transform::IntAdd(-100))
        .flags(true)
        .build(&mut rt);
    assert!(b.is_some());
    // source to target, transformed
    rt.set_property(src, &"a".to_string(), &Value::Int(5)).unwrap();
    assert_eq!(rt.get_property(dst, &"b".to_string()).unwrap(), Value::Int(105));
    // bidirectional: target back to source
    rt.set_property(dst, &"b".to_string(), &Value::Int(300)).unwrap();
    assert_eq!(rt.get_property(src, &"a".to_string()).unwrap(), Value::Int(200));
    // a binding between unknown properties is refused silently
    let none = BindingBuilder::new(src, "zz".to_string(), dst, "b".to_string()).build(&mut rt);
    assert!(none.is_none());
}

#[test]
fn inherited_signals_and_properties_work_on_subtypes() {
    let (mut rt, t) = setup();
    let sub = rt.register(Some(t), vec![], false, true, false).unwrap();
    let obj = rt.new_instance(sub, vec![]).unwrap();
    // the parent's property is visible and writable on the subtype
    rt.set_property(obj, &"name".to_string(), &Value::Str("n".to_string())).unwrap();
    assert_eq!(
        rt.get_property(obj, &"name".to_string()).unwrap(),
        Value::Str("n".to_string())
    );
    // the parent's signal is connectable and emittable on the subtype
    rt.connect(obj, &"name-changed".to_string(), None, false, Handler::Log { tag: 4, ret: None })
        .unwrap();
    rt.emit(obj, &"name-changed".to_string(), None, &vec![Value::StrNone]).unwrap();
    assert_eq!(log_tags(&rt), vec![4]);
    // and the parent's class handler still serves the subtype
    let old = rt
        .emit(obj, &"change-name".to_string(), None, &vec![Value::Str("m".to_string())])
        .unwrap();
    assert_eq!(old, Some(Value::Str("n".to_string())));
}

#[test]
fn subtype_redeclaration_shadows_the_ancestor_signal() {
    let (mut rt, t) = setup();
    let sub = rt.register(Some(t), vec![], false, true, false).unwrap();
    // the subtype redeclares "change-name" with its own class handler, which
    // only records the call instead of renaming
    rt.add_signal_with_class_handler(
        sub,
        "change-name".to_string(),
        SignalFlags { run_first: false, run_last: true, action: true },
        vec![ValueType::Str],
        Some(ValueType::Str),
        Handler::Log { tag: 99, ret: Some(Value::Str("shadowed".to_string())) },
    )
    .unwrap();
    let obj = rt.new_instance(sub, vec![]).unwrap();
    let r = rt
        .emit(obj, &"change-name".to_string(), None, &vec![Value::Str("x".to_string())])
        .unwrap();
    assert_eq!(r, Some(Value::Str("shadowed".to_string())));
    assert_eq!(log_tags(&rt), vec![99]);
    // the property was not touched: the ancestor's renaming handler did not run
    assert_eq!(rt.get_property(obj, &"name".to_string()).unwrap(), Value::StrNone);
    // while an instance of the ancestor type still gets the renaming handler
    let base = rt.new_instance(t, vec![]).unwrap();
    let r2 = rt
        .emit(base, &"change-name".to_string(), None, &vec![Value::Str("y".to_string())])
        .unwrap();
    assert_eq!(r2, Some(Value::StrNone));
    assert_eq!(
        rt.get_property(base, &"name".to_string()).unwrap(),
        Value::Str("y".to_string())
    );
}

#[test]
fn duplicate_signal_on_same_type_is_rejected() {
    let (mut rt, t) = setup();
    assert_eq!(
        rt.add_signal(t, "name-changed".to_string(), plain_flags(), vec![], None),
        Err(objrt::errors::RegistryError::DuplicateSignal)
    );
    // a class handler that does not fit the declared types is rejected
    assert_eq!(
        rt.add_signal_with_class_handler(
            t,
            "odd".to_string(),
            plain_flags(),
            vec![ValueType::Int],
            None,
            Handler::Log { tag: 1, ret: Some(Value::Int(1)) },
        ),
        Err(objrt::errors::RegistryError::TypeMismatch)
    );
}
