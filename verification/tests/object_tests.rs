//! Tests of the type registry, construction, properties, reference counts
//! and weak handles.

use objrt::errors::{ConstructError, PropertyError, RegistryError};
use objrt::instances::SendWeakHandle;
use objrt::runtime::{Handler, PropertyDescriptor, PropertyFlags, Runtime, SignalFlags};
use objrt::values::{Value, ValueType};

fn rw_flags() -> PropertyFlags {
    PropertyFlags { readable: true, writable: true, construct_only: false, lax_validation: false }
}

fn str_prop(name: &str, flags: PropertyFlags) -> PropertyDescriptor {
    PropertyDescriptor {
        name: name.to_string(),
        value_type: ValueType::Str,
        flags,
        default: Value::StrNone,
        min: 0,
        max: 0,
    }
}

fn bool_prop(name: &str, flags: PropertyFlags, default: bool) -> PropertyDescriptor {
    PropertyDescriptor {
        name: name.to_string(),
        value_type: ValueType::Bool,
        flags,
        default: Value::Bool(default),
        min: 0,
        max: 0,
    }
}

fn int_prop(name: &str, flags: PropertyFlags, default: i64, min: i64, max: i64) -> PropertyDescriptor {
    PropertyDescriptor {
        name: name.to_string(),
        value_type: ValueType::Int,
        flags,
        default: Value::Int(default),
        min,
        max,
    }
}

/// A registry with a root type, a marker interface, and a concrete type
/// mirroring a simple object: a readable-writable string property "name", a
/// read-only boolean "constructed" set by the constructed hook, a unit
/// signal "name-changed" and an action signal "change-name" whose class
/// handler renames the object and returns the old name.
fn setup() -> (Runtime, usize, usize, usize) {
    let mut rt = Runtime::new();
    let root = rt.register(None, vec![], false, true, false).unwrap();
    let iface = rt.register(None, vec![], true, false, false).unwrap();
    let simple = rt.register(Some(root), vec![iface], false, true, false).unwrap();
    rt.install_properties(
        simple,
        vec![
            str_prop("name", rw_flags()),
            bool_prop(
                "constructed",
                PropertyFlags {
                    readable: true,
                    writable: false,
                    construct_only: false,
                    lax_validation: false,
                },
                false,
            ),
        ],
    )
    .unwrap();
    rt.set_constructed_marker(simple, "constructed".to_string()).unwrap();
    rt.add_signal(
        simple,
        "name-changed".to_string(),
        SignalFlags { run_first: false, run_last: true, action: false },
        vec![ValueType::Str],
        None,
    )
    .unwrap();
    rt.add_signal_with_class_handler(
        simple,
        "change-name".to_string(),
        SignalFlags { run_first: false, run_last: true, action: true },
        vec![ValueType::Str],
        Some(ValueType::Str),
        Handler::ReplaceEmit { prop: "name".to_string(), signal: "name-changed".to_string() },
    )
    .unwrap();
    (rt, root, iface, simple)
}

#[test]
fn test_create() {
    let (mut rt, _root, iface, simple) = setup();
    let obj = rt.new_instance(simple, vec![]).unwrap();

    assert!(rt.is_a(rt.type_of(obj).unwrap(), iface));

    assert_eq!(
        rt.get_property(obj, &"constructed".to_string()).unwrap(),
        Value::Bool(true)
    );

    assert_eq!(rt.get_property(obj, &"name".to_string()).unwrap(), Value::StrNone);
    rt.set_property(obj, &"name".to_string(), &Value::Str("test".to_string())).unwrap();
    assert_eq!(
        rt.get_property(obj, &"name".to_string()).unwrap(),
        Value::Str("test".to_string())
    );

    let weak = rt.downgrade(obj);
    rt.drop_ref(obj);
    assert!(rt.upgrade(&weak).is_none());
}

#[test]
fn is_a_walks_chain_and_interfaces() {
    let (rt, root, iface, simple) = setup();
    assert!(rt.is_a(simple, simple));
    assert!(rt.is_a(simple, root));
    assert!(rt.is_a(simple, iface));
    assert!(!rt.is_a(root, simple));
    assert!(!rt.is_a(iface, simple));
    assert!(!rt.is_a(999, root));
    assert!(!rt.is_a(root, 999));
}

#[test]
fn register_rejects_unknown_parent_and_interface() {
    let mut rt = Runtime::new();
    assert_eq!(
        rt.register(Some(7), vec![], false, true, false),
        Err(RegistryError::NotFound)
    );
    let root = rt.register(None, vec![], false, true, false).unwrap();
    assert_eq!(
        rt.register(Some(root), vec![42], false, true, false),
        Err(RegistryError::NotFound)
    );
}

#[test]
fn install_rejects_duplicates_sealing_and_bad_descriptors() {
    let (mut rt, _root, _iface, simple) = setup();
    // duplicate against the chain
    assert_eq!(
        rt.install_properties(simple, vec![str_prop("name", rw_flags())]),
        Err(RegistryError::DuplicateProperty)
    );
    // duplicate within the batch
    assert_eq!(
        rt.install_properties(
            simple,
            vec![str_prop("twice", rw_flags()), str_prop("twice", rw_flags())]
        ),
        Err(RegistryError::DuplicateProperty)
    );
    // default of the wrong type
    let mut bad = str_prop("odd", rw_flags());
    bad.default = Value::Bool(true);
    assert_eq!(rt.install_properties(simple, vec![bad]), Err(RegistryError::TypeMismatch));
    // empty integer range
    assert_eq!(
        rt.install_properties(simple, vec![int_prop("n", rw_flags(), 0, 5, -5)]),
        Err(RegistryError::InvalidRange)
    );
    // default outside the range
    assert_eq!(
        rt.install_properties(simple, vec![int_prop("n", rw_flags(), 9, 0, 5)]),
        Err(RegistryError::InvalidRange)
    );
    // sealing: after the first instance, registration is rejected
    let _obj = rt.new_instance(simple, vec![]).unwrap();
    assert_eq!(
        rt.install_properties(simple, vec![str_prop("late", rw_flags())]),
        Err(RegistryError::Sealed)
    );
    assert_eq!(
        rt.add_signal(
            simple,
            "late".to_string(),
            SignalFlags { run_first: false, run_last: true, action: false },
            vec![],
            None
        ),
        Err(RegistryError::Sealed)
    );
}

#[test]
fn construct_errors() {
    let (mut rt, _root, iface, simple) = setup();
    assert_eq!(rt.new_instance(77, vec![]), Err(ConstructError::NotFound));
    assert_eq!(rt.new_instance(iface, vec![]), Err(ConstructError::NotInstantiable));
    let abstract_type = rt.register(None, vec![], true, true, false).unwrap();
    assert_eq!(rt.new_instance(abstract_type, vec![]), Err(ConstructError::AbstractType));
    assert_eq!(
        rt.new_instance(simple, vec![("nosuch".to_string(), Value::Int(1))]),
        Err(ConstructError::UnknownProperty)
    );
    assert_eq!(
        rt.new_instance(simple, vec![("name".to_string(), Value::Int(1))]),
        Err(ConstructError::TypeMismatch)
    );
    // a property without the writable flag cannot be supplied
    assert_eq!(
        rt.new_instance(simple, vec![("constructed".to_string(), Value::Bool(true))]),
        Err(ConstructError::NotWritable)
    );
}

#[test]
fn construct_only_property_succeeds_at_construction() {
    let mut rt = Runtime::new();
    let root = rt.register(None, vec![], false, true, false).unwrap();
    let t = rt.register(Some(root), vec![], false, true, false).unwrap();
    rt.install_properties(
        t,
        vec![str_prop(
            "id",
            PropertyFlags {
                readable: true,
                writable: true,
                construct_only: true,
                lax_validation: false,
            },
        )],
    )
    .unwrap();
    let obj = rt
        .new_instance(t, vec![("id".to_string(), Value::Str("fixed".to_string()))])
        .unwrap();
    assert_eq!(
        rt.get_property(obj, &"id".to_string()).unwrap(),
        Value::Str("fixed".to_string())
    );
    // but it cannot be set afterwards
    assert_eq!(
        rt.set_property(obj, &"id".to_string(), &Value::Str("other".to_string())),
        Err(PropertyError::NotWritable)
    );
    // construction with a value of the wrong type fails outright
    let rejected = rt.new_instance(t, vec![("id".to_string(), Value::Int(3))]);
    assert_eq!(rejected, Err(ConstructError::TypeMismatch));
}

#[test]
fn property_validation_and_round_trip() {
    let mut rt = Runtime::new();
    let root = rt.register(None, vec![], false, true, false).unwrap();
    let t = rt.register(Some(root), vec![], false, true, false).unwrap();
    rt.install_properties(
        t,
        vec![
            int_prop("strict", rw_flags(), 5, 0, 10),
            int_prop(
                "lax",
                PropertyFlags {
                    readable: true,
                    writable: true,
                    construct_only: false,
                    lax_validation: true,
                },
                5,
                0,
                10,
            ),
        ],
    )
    .unwrap();
    let obj = rt.new_instance(t, vec![]).unwrap();
    // defaults
    assert_eq!(rt.get_property(obj, &"strict".to_string()).unwrap(), Value::Int(5));
    // in-range write reads back unchanged
    rt.set_property(obj, &"strict".to_string(), &Value::Int(7)).unwrap();
    assert_eq!(rt.get_property(obj, &"strict".to_string()).unwrap(), Value::Int(7));
    // out-of-range write without lax validation fails, nothing changes
    assert_eq!(
        rt.set_property(obj, &"strict".to_string(), &Value::Int(99)),
        Err(PropertyError::ValidationFailed)
    );
    assert_eq!(rt.get_property(obj, &"strict".to_string()).unwrap(), Value::Int(7));
    // out-of-range write with lax validation clamps
    rt.set_property(obj, &"lax".to_string(), &Value::Int(99)).unwrap();
    assert_eq!(rt.get_property(obj, &"lax".to_string()).unwrap(), Value::Int(10));
    rt.set_property(obj, &"lax".to_string(), &Value::Int(-3)).unwrap();
    assert_eq!(rt.get_property(obj, &"lax".to_string()).unwrap(), Value::Int(0));
    // unknown property
    assert_eq!(
        rt.get_property(obj, &"missing".to_string()),
        Err(PropertyError::NotFound)
    );
    assert_eq!(
        rt.set_property(obj, &"missing".to_string(), &Value::Int(0)),
        Err(PropertyError::NotFound)
    );
    // wrong type
    assert_eq!(
        rt.set_property(obj, &"strict".to_string(), &Value::Bool(true)),
        Err(PropertyError::TypeMismatch)
    );
}

#[test]
fn write_only_property_is_not_readable() {
    let mut rt = Runtime::new();
    let root = rt.register(None, vec![], false, true, false).unwrap();
    let t = rt.register(Some(root), vec![], false, true, false).unwrap();
    rt.install_properties(
        t,
        vec![str_prop(
            "secret",
            PropertyFlags {
                readable: false,
                writable: true,
                construct_only: false,
                lax_validation: false,
            },
        )],
    )
    .unwrap();
    let obj = rt.new_instance(t, vec![]).unwrap();
    assert_eq!(
        rt.get_property(obj, &"secret".to_string()),
        Err(PropertyError::NotReadable)
    );
}

#[test]
fn covariant_object_assignment() {
    let (mut rt, root, _iface, simple) = setup();
    let holder = rt.register(Some(root), vec![], false, true, false).unwrap();
    rt.install_properties(
        holder,
        vec![PropertyDescriptor {
            name: "child".to_string(),
            value_type: ValueType::Object(root),
            flags: rw_flags(),
            default: Value::Object { tag: root, obj: None },
            min: 0,
            max: 0,
        }],
    )
    .unwrap();
    let h = rt.new_instance(holder, vec![]).unwrap();
    let child = rt.new_instance(simple, vec![]).unwrap();
    // a value statically tagged with the subtype is accepted covariantly
    rt.set_property(
        h,
        &"child".to_string(),
        &Value::Object { tag: simple, obj: Some(child) },
    )
    .unwrap();
    // "no object" is compatible with any object type
    rt.set_property(h, &"child".to_string(), &Value::Object { tag: 9999, obj: None }).unwrap();
    assert_eq!(
        rt.get_property(h, &"child".to_string()).unwrap(),
        Value::Object { tag: root, obj: None }
    );
    // an unrelated object is rejected
    let stranger_type = rt.register(None, vec![], false, true, false).unwrap();
    let stranger = rt.new_instance(stranger_type, vec![]).unwrap();
    assert_eq!(
        rt.set_property(
            h,
            &"child".to_string(),
            &Value::Object { tag: stranger_type, obj: Some(stranger) }
        ),
        Err(PropertyError::TypeMismatch)
    );
}

#[test]
fn refcount_round_trip_destroys_exactly_once() {
    let (mut rt, _root, _iface, simple) = setup();
    let obj = rt.new_instance(simple, vec![]).unwrap();
    assert_eq!(rt.ref_count(obj), Some(1));
    let n = 5;
    for _ in 0..n {
        rt.clone_ref(obj);
    }
    assert_eq!(rt.ref_count(obj), Some(n + 1));
    for _ in 0..n {
        rt.drop_ref(obj);
    }
    assert_eq!(rt.ref_count(obj), Some(1));
    assert!(rt.is_alive(obj));
    assert_eq!(rt.destroyed.len(), 0);
    rt.drop_ref(obj);
    assert!(!rt.is_alive(obj));
    assert_eq!(rt.ref_count(obj), None);
    // exactly one destruction event, observable exactly once
    assert_eq!(rt.destroyed.len(), 1);
    assert_eq!(rt.destroyed[0], obj);
}

#[test]
fn weak_handles_upgrade_and_invalidate() {
    let (mut rt, _root, _iface, simple) = setup();
    let obj = rt.new_instance(simple, vec![]).unwrap();
    let weak = rt.downgrade(obj);
    // upgrade before destruction yields a new owned reference
    let strong = rt.upgrade(&weak).unwrap();
    assert_eq!(strong, obj);
    assert_eq!(rt.ref_count(obj), Some(2));
    let weak2 = rt.clone_weak(&weak);
    rt.drop_ref(obj);
    rt.drop_ref(obj);
    // strictly after the last drop every weak handle is dead
    assert!(rt.upgrade(&weak).is_none());
    assert!(rt.upgrade(&weak2).is_none());
    // a fresh empty handle never upgrades
    let empty = objrt::instances::WeakHandle::new();
    assert!(rt.upgrade(&empty).is_none());
}

#[test]
fn floating_reference_is_sunk_once() {
    let mut rt = Runtime::new();
    let root = rt.register(None, vec![], false, true, true).unwrap();
    let obj = rt.new_instance(root, vec![]).unwrap();
    assert!(rt.is_floating(obj));
    assert_eq!(rt.ref_count(obj), Some(1));
    rt.sink(obj);
    assert!(!rt.is_floating(obj));
    assert_eq!(rt.ref_count(obj), Some(1));
    // sinking twice changes nothing
    rt.sink(obj);
    assert!(!rt.is_floating(obj));
    assert_eq!(rt.ref_count(obj), Some(1));
}

#[test]
fn downcast_consults_the_registry() {
    let (mut rt, root, _iface, simple) = setup();
    let obj = rt.new_instance(simple, vec![]).unwrap();
    assert_eq!(rt.downcast(obj, root), Some(obj));
    assert_eq!(rt.downcast(obj, simple), Some(obj));
    let other = rt.register(None, vec![], false, true, false).unwrap();
    assert_eq!(rt.downcast(obj, other), None);
}

#[test]
fn class_queries() {
    let (rt, _root, _iface, simple) = setup();
    assert!(rt.has_property(simple, &"name".to_string(), None));
    assert!(rt.has_property(simple, &"name".to_string(), Some(ValueType::Str)));
    assert!(!rt.has_property(simple, &"name".to_string(), Some(ValueType::Int)));
    assert!(!rt.has_property(simple, &"nosuch".to_string(), None));
    assert_eq!(rt.get_property_type(simple, &"constructed".to_string()), Some(ValueType::Bool));
    assert_eq!(rt.get_property_type(simple, &"nosuch".to_string()), None);
    let d = rt.find_property(simple, &"name".to_string()).unwrap();
    assert_eq!(d.value_type, ValueType::Str);
    assert!(d.flags.writable);
    let all = rt.list_properties(simple);
    assert_eq!(all.len(), 2);
    assert_eq!(all[0].name, "name");
    assert_eq!(all[1].name, "constructed");
    assert!(rt.class_of(simple).is_ok());
    assert!(rt.class_of(424242).is_err());
}

#[test]
fn set_properties_validates_all_before_writing() {
    let mut rt = Runtime::new();
    let root = rt.register(None, vec![], false, true, false).unwrap();
    let t = rt.register(Some(root), vec![], false, true, false).unwrap();
    rt.install_properties(
        t,
        vec![int_prop("a", rw_flags(), 0, 0, 100), int_prop("b", rw_flags(), 0, 0, 100)],
    )
    .unwrap();
    let obj = rt.new_instance(t, vec![]).unwrap();
    // the second pair fails, so the first is not written either
    assert_eq!(
        rt.set_properties(
            obj,
            &vec![
                ("a".to_string(), Value::Int(3)),
                ("b".to_string(), Value::Bool(true)),
            ]
        ),
        Err(PropertyError::TypeMismatch)
    );
    assert_eq!(rt.get_property(obj, &"a".to_string()).unwrap(), Value::Int(0));
    // a valid batch writes both
    rt.set_properties(
        obj,
        &vec![("a".to_string(), Value::Int(3)), ("b".to_string(), Value::Int(4))],
    )
    .unwrap();
    assert_eq!(rt.get_property(obj, &"a".to_string()).unwrap(), Value::Int(3));
    assert_eq!(rt.get_property(obj, &"b".to_string()).unwrap(), Value::Int(4));
}

#[test]
fn send_weak_handle_is_thread_confined_by_token() {
    let (mut rt, _root, _iface, simple) = setup();
    let obj = rt.new_instance(simple, vec![]).unwrap();
    let weak = rt.downgrade(obj);
    let sendable = SendWeakHandle::from_weak(weak, 11);
    let back = sendable.into_weak_ref(11);
    assert_eq!(rt.upgrade(&back), Some(obj));
    let unconfined = SendWeakHandle::new();
    assert!(unconfined.into_weak_ref(99).slot.is_none());
}

#[test]
fn construct_applies_range_validation() {
    let mut rt = Runtime::new();
    let root = rt.register(None, vec![], false, true, false).unwrap();
    let t = rt.register(Some(root), vec![], false, true, false).unwrap();
    rt.install_properties(
        t,
        vec![
            int_prop("strict", rw_flags(), 5, 0, 10),
            int_prop(
                "lax",
                PropertyFlags {
                    readable: true,
                    writable: true,
                    construct_only: false,
                    lax_validation: true,
                },
                5,
                0,
                10,
            ),
        ],
    )
    .unwrap();
    // an out-of-range construct value without lax validation fails outright
    assert_eq!(
        rt.new_instance(t, vec![("strict".to_string(), Value::Int(42))]),
        Err(ConstructError::ValidationFailed)
    );
    // with lax validation it is clamped
    let obj = rt.new_instance(t, vec![("lax".to_string(), Value::Int(42))]).unwrap();
    assert_eq!(rt.get_property(obj, &"lax".to_string()).unwrap(), Value::Int(10));
}
