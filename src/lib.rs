//! Generates host-language bindings (TypeScript-like class definitions) for
//! native structs and enums that live in a flat, byte-addressed heap, together
//! with a fixed-element-size slab allocator for instances of those types.

pub mod binding;
pub mod codec;
pub mod emit;
pub mod layout;
pub mod ledger;
pub mod naming;
pub mod slab;
pub mod text;
