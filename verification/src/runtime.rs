//! The runtime's data: class metadata, instances, weak slots, signal
//! connections, bindings, and the [`Runtime`] that owns them all, together
//! with the ghost model each of them is viewed as.

use vstd::prelude::*;

use crate::values::{ValModel, Value, ValueType};

verus! {

/// Flags of a property descriptor.
#[derive(Clone, Copy, Debug, PartialEq, Eq, Structural)]
pub struct PropertyFlags {
    pub readable: bool,
    pub writable: bool,
    pub construct_only: bool,
    /// When set, a value that range validation had to adjust is accepted in
    /// its adjusted form instead of being rejected.
    pub lax_validation: bool,
}

/// Flags of a signal descriptor. `run_first` and `run_last` place the class
/// handler before or after the connected handlers that did not ask to run
/// late.
#[derive(Clone, Copy, Debug, PartialEq, Eq, Structural)]
pub struct SignalFlags {
    pub run_first: bool,
    pub run_last: bool,
    pub action: bool,
}

/// Combines the return values of successive handlers during one emission.
#[derive(Clone, Copy, Debug, PartialEq, Eq, Structural)]
pub enum Accumulator {
    /// The first value returned by a handler becomes the result and stops
    /// the emission.
    FirstWins,
    /// Every returned value replaces the result; a handler returning
    /// `true` stops the emission.
    TrueHandled,
}

/// What a handler does when a signal it is attached to is emitted.
///
/// Handlers are data interpreted by the dispatcher: each variant is one of
/// the behaviours the runtime knows how to run.
#[derive(Clone, Debug, PartialEq)]
pub enum Handler {
    /// Appends `(tag, arguments)` to the runtime's dispatch log and returns
    /// `ret`.
    Log { tag: u64, ret: Option<Value> },
    /// As `Log`, and also suppresses the remaining handlers of the current
    /// emission (the in-handler "stop emission" operation).
    LogStop { tag: u64, ret: Option<Value> },
    /// A class-handler behaviour: stores the first argument into property
    /// `prop` of the receiving instance, emits `signal` on that instance
    /// with the stored value as its only argument, and returns the
    /// property's previous value. If the property cannot be resolved, the
    /// signal is unknown, or the reentrancy budget is exhausted, the
    /// respective step is skipped.
    ReplaceEmit { prop: String, signal: String },
}

/// Ghost shape of a [`Handler`].
#[verifier::ext_equal]
pub ghost enum HandlerModel {
    Log { tag: u64, ret: Option<ValModel> },
    LogStop { tag: u64, ret: Option<ValModel> },
    ReplaceEmit { prop: Seq<char>, signal: Seq<char> },
}

impl View for Handler {
    type V = HandlerModel;

    open spec fn view(&self) -> HandlerModel {
        match self {
            Handler::Log { tag, ret } => HandlerModel::Log {
                tag: *tag,
                ret: match ret {
                    Some(v) => Some(v@),
                    None => None,
                },
            },
            Handler::LogStop { tag, ret } => HandlerModel::LogStop {
                tag: *tag,
                ret: match ret {
                    Some(v) => Some(v@),
                    None => None,
                },
            },
            Handler::ReplaceEmit { prop, signal } => HandlerModel::ReplaceEmit {
                prop: prop@,
                signal: signal@,
            },
        }
    }
}

impl Handler {
    /// An exact copy with a known value.
    pub fn duplicate(&self) -> (r: Handler)
        ensures
            r@ == self@,
    {
        match self {
            Handler::Log { tag, ret } => Handler::Log {
                tag: *tag,
                ret: match ret {
                    Some(v) => Some(v.duplicate()),
                    None => None,
                },
            },
            Handler::LogStop { tag, ret } => Handler::LogStop {
                tag: *tag,
                ret: match ret {
                    Some(v) => Some(v.duplicate()),
                    None => None,
                },
            },
            Handler::ReplaceEmit { prop, signal } => Handler::ReplaceEmit {
                prop: prop.clone(),
                signal: signal.clone(),
            },
        }
    }
}

/// The handler views of an optional handler.
pub open spec fn opt_handler_view(h: Option<Handler>) -> Option<HandlerModel> {
    match h {
        Some(x) => Some(x@),
        None => None,
    }
}

/// Describes one property of a type: its name, value type, flags, default
/// value, and (for integer properties) the allowed range.
#[derive(Clone, Debug, PartialEq)]
pub struct PropertyDescriptor {
    pub name: String,
    pub value_type: ValueType,
    pub flags: PropertyFlags,
    pub default: Value,
    pub min: i64,
    pub max: i64,
}

/// Ghost shape of a [`PropertyDescriptor`].
#[verifier::ext_equal]
pub ghost struct PropModel {
    pub name: Seq<char>,
    pub ty: ValueType,
    pub flags: PropertyFlags,
    pub default: ValModel,
    pub min: i64,
    pub max: i64,
}

impl View for PropertyDescriptor {
    type V = PropModel;

    open spec fn view(&self) -> PropModel {
        PropModel {
            name: self.name@,
            ty: self.value_type,
            flags: self.flags,
            default: self.default@,
            min: self.min,
            max: self.max,
        }
    }
}

impl PropertyDescriptor {
    /// An exact copy with a known value.
    pub fn duplicate(&self) -> (r: PropertyDescriptor)
        ensures
            r@ == self@,
    {
        PropertyDescriptor {
            name: self.name.clone(),
            value_type: self.value_type,
            flags: self.flags,
            default: self.default.duplicate(),
            min: self.min,
            max: self.max,
        }
    }
}

/// Describes one signal of a type: its name, flags, argument types, return
/// type (`None` for a unit signal), optional class handler and optional
/// accumulator.
#[derive(Clone, Debug, PartialEq)]
pub struct SignalDescriptor {
    pub name: String,
    pub flags: SignalFlags,
    pub arg_types: Vec<ValueType>,
    pub return_type: Option<ValueType>,
    pub class_handler: Option<Handler>,
    pub accumulator: Option<Accumulator>,
}

/// Ghost shape of a [`SignalDescriptor`].
#[verifier::ext_equal]
pub ghost struct SigModel {
    pub name: Seq<char>,
    pub flags: SignalFlags,
    pub args: Seq<ValueType>,
    pub ret: Option<ValueType>,
    pub class_handler: Option<HandlerModel>,
    pub accumulator: Option<Accumulator>,
}

impl View for SignalDescriptor {
    type V = SigModel;

    open spec fn view(&self) -> SigModel {
        SigModel {
            name: self.name@,
            flags: self.flags,
            args: self.arg_types@,
            ret: self.return_type,
            class_handler: match &self.class_handler {
                Some(h) => Some(h@),
                None => None,
            },
            accumulator: self.accumulator,
        }
    }
}

/// The metadata of one registered type: its parent (single inheritance),
/// the interfaces it implements, its instantiation flags, and its property
/// and signal tables. `sealed` is set when the first instance of the type
/// (or of a subtype) is created; registration on a sealed type is rejected.
/// `constructed_marker` optionally names a boolean property that the
/// runtime sets to `true` when construction of an instance finishes (the
/// "constructed" hook of the type).
#[derive(Debug)]
pub struct ClassMetadata {
    pub parent: Option<usize>,
    pub interfaces: Vec<usize>,
    pub is_abstract: bool,
    pub instantiable: bool,
    pub initially_unowned: bool,
    pub sealed: bool,
    pub constructed_marker: Option<String>,
    pub properties: Vec<PropertyDescriptor>,
    pub signals: Vec<SignalDescriptor>,
}

/// Ghost shape of a [`ClassMetadata`].
#[verifier::ext_equal]
pub ghost struct ClassModel {
    pub parent: Option<usize>,
    pub interfaces: Seq<usize>,
    pub is_abstract: bool,
    pub instantiable: bool,
    pub initially_unowned: bool,
    pub sealed: bool,
    pub constructed_marker: Option<Seq<char>>,
    pub props: Seq<PropModel>,
    pub signals: Seq<SigModel>,
}

impl View for ClassMetadata {
    type V = ClassModel;

    open spec fn view(&self) -> ClassModel {
        ClassModel {
            parent: self.parent,
            interfaces: self.interfaces@,
            is_abstract: self.is_abstract,
            instantiable: self.instantiable,
            initially_unowned: self.initially_unowned,
            sealed: self.sealed,
            constructed_marker: match &self.constructed_marker {
                Some(s) => Some(s@),
                None => None,
            },
            props: self.properties@.map_values(|p: PropertyDescriptor| p@),
            signals: self.signals@.map_values(|s: SignalDescriptor| s@),
        }
    }
}

/// One instance slot. Slots are never reused: a destroyed instance keeps
/// its slot with `alive == false` and `ref_count == 0`.
#[derive(Debug)]
pub struct InstanceSlot {
    pub alive: bool,
    pub type_id: usize,
    pub ref_count: u64,
    pub floating: bool,
    /// Property values, indexed like the flattened descriptor list of the
    /// instance's type (own properties first, then the ancestors').
    pub values: Vec<Value>,
}

/// Ghost shape of an [`InstanceSlot`].
#[verifier::ext_equal]
pub ghost struct InstModel {
    pub alive: bool,
    pub type_id: usize,
    pub ref_count: u64,
    pub floating: bool,
    pub values: Seq<ValModel>,
}

impl View for InstanceSlot {
    type V = InstModel;

    open spec fn view(&self) -> InstModel {
        InstModel {
            alive: self.alive,
            type_id: self.type_id,
            ref_count: self.ref_count,
            floating: self.floating,
            values: crate::values::vals_view(self.values@),
        }
    }
}

/// One signal connection. A connection is identified by its index in the
/// runtime's connection table, so identifiers are unique and ordered by
/// registration. `disconnected` is terminal.
#[derive(Debug)]
pub struct Connection {
    pub instance: usize,
    pub sig_type: usize,
    pub sig_index: usize,
    pub detail: Option<String>,
    pub after: bool,
    pub blocked: bool,
    pub disconnected: bool,
    pub handler: Handler,
}

/// Ghost shape of a [`Connection`].
#[verifier::ext_equal]
pub ghost struct ConnModel {
    pub instance: usize,
    pub sig_type: usize,
    pub sig_index: usize,
    pub detail: Option<Seq<char>>,
    pub after: bool,
    pub blocked: bool,
    pub disconnected: bool,
    pub handler: HandlerModel,
}

impl View for Connection {
    type V = ConnModel;

    open spec fn view(&self) -> ConnModel {
        ConnModel {
            instance: self.instance,
            sig_type: self.sig_type,
            sig_index: self.sig_index,
            detail: match &self.detail {
                Some(s) => Some(s@),
                None => None,
            },
            after: self.after,
            blocked: self.blocked,
            disconnected: self.disconnected,
            handler: self.handler@,
        }
    }
}

/// A value transformation applied while a binding propagates a property
/// value.
#[derive(Clone, Copy, Debug, PartialEq, Eq, Structural)]
pub enum Transform {
    /// The value is propagated as it is.
    Identity,
    /// A boolean value is negated; other values are propagated as they are.
    BoolNot,
    /// The given offset is added to an integer value; other values, and
    /// additions that would overflow, are propagated as they are.
    IntAdd(i64),
}

/// An active property binding: when the source property changes, the
/// transformed value is stored into the target property (and symmetrically
/// for bidirectional bindings).
#[derive(Debug)]
pub struct Binding {
    pub source: usize,
    pub source_prop: String,
    pub target: usize,
    pub target_prop: String,
    pub bidirectional: bool,
    pub transform_to: Transform,
    pub transform_from: Transform,
}

/// Ghost shape of a [`Binding`].
#[verifier::ext_equal]
pub ghost struct BindModel {
    pub source: usize,
    pub source_prop: Seq<char>,
    pub target: usize,
    pub target_prop: Seq<char>,
    pub bidirectional: bool,
    pub transform_to: Transform,
    pub transform_from: Transform,
}

impl View for Binding {
    type V = BindModel;

    open spec fn view(&self) -> BindModel {
        BindModel {
            source: self.source,
            source_prop: self.source_prop@,
            target: self.target,
            target_prop: self.target_prop@,
            bidirectional: self.bidirectional,
            transform_to: self.transform_to,
            transform_from: self.transform_from,
        }
    }
}

/// One dispatch-log record: a handler with the given tag ran with the given
/// arguments.
#[derive(Debug)]
pub struct LogEntry {
    pub tag: u64,
    pub args: Vec<Value>,
}

/// Ghost shape of a [`LogEntry`].
#[verifier::ext_equal]
pub ghost struct LogModel {
    pub tag: u64,
    pub args: Seq<ValModel>,
}

impl View for LogEntry {
    type V = LogModel;

    open spec fn view(&self) -> LogModel {
        LogModel {
            tag: self.tag,
            args: crate::values::vals_view(self.args@),
        }
    }
}

/// The whole runtime: the type registry, the instance table, the weak
/// reference slots, the connection table, the active bindings, the dispatch
/// log and the destruction log.
#[derive(Debug)]
pub struct Runtime {
    pub classes: Vec<ClassMetadata>,
    pub instances: Vec<InstanceSlot>,
    pub weak_slots: Vec<Option<usize>>,
    pub connections: Vec<Connection>,
    pub bindings: Vec<Binding>,
    pub dispatch_log: Vec<LogEntry>,
    pub destroyed: Vec<usize>,
}

/// Ghost shape of the whole [`Runtime`].
#[verifier::ext_equal]
pub ghost struct RtModel {
    pub classes: Seq<ClassModel>,
    pub insts: Seq<InstModel>,
    pub weaks: Seq<Option<usize>>,
    pub conns: Seq<ConnModel>,
    pub bindings: Seq<BindModel>,
    pub log: Seq<LogModel>,
    pub destroyed: Seq<usize>,
}

/// The class views of a class table.
pub open spec fn classes_views(s: Seq<ClassMetadata>) -> Seq<ClassModel> {
    s.map_values(|c: ClassMetadata| c@)
}

/// The instance views of an instance table.
pub open spec fn insts_views(s: Seq<InstanceSlot>) -> Seq<InstModel> {
    s.map_values(|x: InstanceSlot| x@)
}

/// The connection views of a connection table.
pub open spec fn conns_views(s: Seq<Connection>) -> Seq<ConnModel> {
    s.map_values(|c: Connection| c@)
}

/// The binding views of a binding table.
pub open spec fn bindings_views(s: Seq<Binding>) -> Seq<BindModel> {
    s.map_values(|b: Binding| b@)
}

/// The record views of a dispatch log.
pub open spec fn log_views(s: Seq<LogEntry>) -> Seq<LogModel> {
    s.map_values(|e: LogEntry| e@)
}

impl View for Runtime {
    type V = RtModel;

    open spec fn view(&self) -> RtModel {
        RtModel {
            classes: classes_views(self.classes@),
            insts: insts_views(self.instances@),
            weaks: self.weak_slots@,
            conns: conns_views(self.connections@),
            bindings: bindings_views(self.bindings@),
            log: log_views(self.dispatch_log@),
            destroyed: self.destroyed@,
        }
    }
}

} // verus!
