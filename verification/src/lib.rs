//! A dynamic object runtime: a registry of single-inheritance types with
//! interfaces, reference-counted instances carrying typed properties, a
//! signal bus with ordered dispatch, blocking and return-value accumulation,
//! weak references that are invalidated on destruction, and property
//! bindings that propagate values between instances.
//!
//! All state lives in one [`runtime::Runtime`] value; types, instances,
//! weak references and signal connections are handed out as plain
//! identifiers. Every operation carries a contract over the runtime's ghost
//! model ([`runtime::RtModel`]); the laws the runtime obeys across
//! operations are stated and proved in [`laws`].
//!
//! Handlers attached to signals are data interpreted by the dispatcher (see
//! [`runtime::Handler`]): the runtime records their invocations in a
//! dispatch log, so dispatch order, blocking and accumulation are
//! observable and verified.

pub mod bindings;
pub mod construct;
pub mod errors;
pub mod instances;
pub mod laws;
pub mod lookup;
pub mod properties;
pub mod registry;
pub mod resolve;
pub mod runtime;
pub mod signals;
pub mod validate;
pub mod values;
