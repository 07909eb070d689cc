//! Data-driven prefabs.
//!
//! A prefab describes a group of entities and their attributes as data.
//! The types of the attributes are not known to the loader when it is
//! compiled: an application registers them, each under a stable 128-bit
//! identifier, and the data names the type of every attribute by that
//! identifier.
//!
//! - [`type_uuid`] attaches identifiers to types and composes the
//!   identifiers of parameterized types.
//! - [`derive`] works out the bytes of an identifier from its text, for
//!   deriving `TypeUuid`.
//! - [`bundle`] collects the registered types and what they declare about
//!   the resources they touch.
//! - [`prefab`] holds a prefab in its parsed and in its typed form,
//!   resolves the first into the second against the registry and triggers
//!   the nested loads of the typed payloads.
//! - [`system`] decides, tick after tick, what becomes of a prefab that is
//!   being loaded, and instantiates loaded prefabs at the entities that
//!   wait for them.
//! - [`loader`] has the tag that marks the entities made from a prefab.
//!
//! The library owns no world and no asset storage. A world and a tracker
//! of nested loads are handed to it and come back from it: every call
//! that may change them takes them and gives them back. The contracts
//! follow them from call to call, and so say not only what is called with
//! what, but also in what order.

pub mod bundle;
pub mod derive;
pub mod loader;
pub mod prefab;
pub mod system;
pub mod type_uuid;
