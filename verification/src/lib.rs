//! Static dispatch over a closed set of types.
//!
//! A union wraps each of a closed set of types in a variant of its own; an interface is
//! implemented for the union by forwarding every call to the value that the union holds.
//! This library is the engine behind that: it holds the declarations of interfaces and
//! unions ([`item_trait`], [`enum_dispatch_item`], [`enum_dispatch_variant`]), the registry
//! that pairs them whatever the order in which they are declared ([`cache`],
//! [`resolution`]), and the generator of the forwarding implementation and of the
//! conversions between a union and the types it wraps ([`expansion`], [`impl_blocks`]).
//!
//! What is generated is a value that can be written out as source text ([`text`]). What
//! the generated code does when it runs is laid down in [`dispatch`], together with the
//! proofs that it forwards correctly. The registry keeps its declarations as text
//! ([`stored`], [`layout`]), with the proof that nothing is lost in it.

pub mod attribute;
pub mod attributed_parser;
pub mod cache;
pub mod dispatch;
pub mod enum_dispatch_arg_list;
pub mod enum_dispatch_item;
pub mod enum_dispatch_variant;
pub mod expansion;
pub mod generics;
pub mod impl_blocks;
pub mod item_trait;
pub mod layout;
pub mod resolution;
pub mod skip_implementation;
pub mod stored;
pub mod text;
pub mod views;
