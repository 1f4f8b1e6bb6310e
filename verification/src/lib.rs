//! A map that remembers the order in which its keys were first inserted.
//!
//! [`RegistOrderMap`] stores its entries in one growable sequence. Lookup is a
//! linear scan by key equality, insertion either overwrites the value of an
//! existing key in place or appends a new entry, and iteration walks the
//! entries from the earliest inserted to the latest. There is no removal and
//! no reordering, and the map does no synchronization of its own.
//!
//! The modules:
//!
//! - [`key`]: [`MapKey`], the equality that the map asks of its keys, and its
//!   impls for the primitive types, strings, references and pairs.
//! - [`model`]: the view of a map, a sequence of `(key, value)` pairs, and
//!   the functions on such sequences that the contracts are written in.
//! - [`laws`]: what follows for every map, whatever is inserted into it.
//! - [`map`]: [`RegistOrderMap`] and its iterator [`Iter`].
//!
//! A map `m` has two views. `m@` is the sequence of its entries in insertion
//! order; `m.as_map()` is the same content as a `Map` from key views to
//! values, for reasoning about lookups alone.

pub mod key;
pub mod model;
pub mod laws;
pub mod map;

pub use key::MapKey;
pub use map::{Iter, RegistOrderMap};
