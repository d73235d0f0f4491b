//! Storage layout and authority validation for plugin-extensible digital assets.
//!
//! An entity (an asset or a collection) lives in one contiguous byte buffer:
//! the core header, the plugin data region, the plugin header and the plugin
//! registry, in that order.
//!
//! - `codec`, `state`, `plugins` and `registry` give each record its byte
//!   encoding and prove that reading undoes writing.
//! - `model` gives a whole buffer its mathematical view, the rules that a
//!   stored entity obeys, and the laws of the layout.
//! - `entity` reads an entity from its buffer and writes it into one.
//! - `layout` reads, writes, resizes and relocates the bytes of a buffer, and
//!   changes an entity in place.
//! - `authority` resolves whether an actor holds an authority.
//! - `validation` folds the votes of the core entity and of every plugin
//!   into one decision.
//! - `processor` holds the handlers of the instructions; `instructions`
//!   builds an instruction as a client sends it.

pub mod authority;
pub mod codec;
pub mod entity;
pub mod error;
pub mod instructions;
pub mod layout;
pub mod model;
pub mod plugins;
pub mod processor;
pub mod registry;
pub mod state;
pub mod validation;
