//! The error taxonomy of the runtime's boundary-facing operations.

use vstd::prelude::*;

verus! {

/// Errors of type and descriptor registration.
#[derive(Clone, Copy, Debug, PartialEq, Eq, Structural)]
pub enum RegistryError {
    /// The named type (or a parent or interface handed to registration) is
    /// not registered.
    NotFound,
    /// The type already has instances; its metadata can no longer change.
    Sealed,
    /// A property of that name is already visible on the type or one of its
    /// ancestors.
    DuplicateProperty,
    /// A signal of that name is already declared on the type itself.
    DuplicateSignal,
    /// A supplied default value or class handler does not fit the declared
    /// types.
    TypeMismatch,
    /// An integer range with `min > max`, or a default outside the range.
    InvalidRange,
}

/// Errors of instance construction.
#[derive(Clone, Copy, Debug, PartialEq, Eq, Structural)]
pub enum ConstructError {
    /// The type is not registered.
    NotFound,
    /// The type is not instantiable.
    NotInstantiable,
    /// The type is abstract.
    AbstractType,
    /// A supplied property name resolves to nothing.
    UnknownProperty,
    /// A supplied property is not writable.
    NotWritable,
    /// A supplied value does not fit the property's type.
    TypeMismatch,
    /// A supplied value was adjusted by range validation and the property
    /// does not allow lax validation.
    ValidationFailed,
}

/// Errors of property access.
#[derive(Clone, Copy, Debug, PartialEq, Eq, Structural)]
pub enum PropertyError {
    /// No property of that name on the instance's type or its ancestors,
    /// or the instance itself is gone.
    NotFound,
    /// The property lacks the writable flag, or is construct-only.
    NotWritable,
    /// The property lacks the readable flag.
    NotReadable,
    /// The value does not fit the property's declared type.
    TypeMismatch,
    /// Range validation adjusted the value and lax validation is not set.
    ValidationFailed,
}

/// Errors of the signal bus.
#[derive(Clone, Copy, Debug, PartialEq, Eq, Structural)]
pub enum SignalError {
    /// No signal of that name anywhere on the ancestor chain, an unknown
    /// connection identifier, or a dead instance.
    NotFound,
    /// The emission supplied fewer or more arguments than declared.
    ArityMismatch,
    /// The argument at the given position does not fit its declared type.
    ArgTypeMismatch(usize),
    /// A handler's return shape does not fit the signal's return type.
    TypeMismatch,
    /// The connection was already disconnected.
    AlreadyDisconnected,
}

} // verus!
