//! Marshalling and lifetime-safety boundary between a statically typed host
//! application and an embedded, dynamically typed, garbage-collected guest
//! runtime.
//!
//! The crate models the host side of the boundary: the guest value model,
//! the stack-ordered multi-value list, the paired to-guest / from-guest
//! conversion protocol, the borrow-disciplined opaque-object cells, and the
//! lifetime-bounded [`scope::Scope`] registry that forcibly invalidates
//! everything it exposed when the host block ends.

pub mod error;
pub mod numbits;
pub mod text;
pub mod value;
pub mod multivalue;
pub mod runtime;
pub mod cast;
pub mod conversion;
pub mod bytes;
pub mod multi;
pub mod scope;
pub mod laws;
