//! Error taxonomy of the marshalling boundary.
//!
//! Every failure in this crate is recoverable and is reported as an ordinary
//! value of [`Error`], threaded back to the caller; no operation of the
//! library panics or aborts.
use vstd::prelude::*;

verus! {

/// An error raised at the host/guest boundary.
#[derive(Debug)]
pub enum Error {
    /// A host value could not be converted to a guest value.
    ToLuaConversionError {
        /// Name of the host type that was being converted.
        from: &'static str,
        /// Stable tag of the guest kind that was requested.
        to: &'static str,
        /// Optional detail for diagnostics.
        message: Option<String>,
    },
    /// A guest value could not be converted to the requested host type.
    FromLuaConversionError {
        /// Stable tag of the guest kind that was offered.
        from: &'static str,
        /// Name of the host type that was requested.
        to: &'static str,
        /// Optional detail for diagnostics.
        message: Option<String>,
    },
    /// A conversion failure wrapped with the position of the offending
    /// call argument and, optionally, the name of the called function.
    BadArgument {
        /// Name of the function that received the argument.
        to: Option<String>,
        /// One-based position of the argument.
        pos: usize,
        /// Name of the parameter, when known.
        name: Option<String>,
        /// The underlying conversion failure.
        cause: Box<Error>,
    },
    /// An error value produced by the guest runtime or by a host callback,
    /// carried as ordinary text.
    RuntimeError(String),
    /// A callback that holds an exclusive borrow on its own state was
    /// re-entered from within that same borrow.
    RecursiveMutCallback,
    /// A scope-bounded callback was invoked after its scope ended.
    CallbackDestructed,
    /// An opaque object was used after its host data was released.
    UserDataDestructed,
    /// A shared borrow of an opaque object failed because an exclusive
    /// borrow is active.
    UserDataBorrowError,
    /// An exclusive borrow of an opaque object failed because another
    /// borrow is active.
    UserDataBorrowMutError,
    /// A method was invoked with an opaque object whose runtime identity
    /// does not match the object the method was registered for.
    UserDataTypeMismatch,
    /// A reserved guest protocol entry name was used at registration.
    MetaMethodRestricted(String),
    /// A special guest protocol entry was registered with a value of an
    /// unacceptable kind.
    MetaMethodTypeError {
        /// Name of the protocol entry.
        method: String,
        /// Stable tag of the guest kind that was offered.
        kind: &'static str,
        /// Optional detail for diagnostics.
        message: Option<String>,
    },
}

impl Clone for Error {
    fn clone(&self) -> (r: Self)
        ensures
            r == *self,
        decreases *self,
    {
        match self {
            Error::ToLuaConversionError { from, to, message } => Error::ToLuaConversionError {
                from: *from,
                to: *to,
                message: clone_message(message),
            },
            Error::FromLuaConversionError { from, to, message } => Error::FromLuaConversionError {
                from: *from,
                to: *to,
                message: clone_message(message),
            },
            Error::BadArgument { to, pos, name, cause } => Error::BadArgument {
                to: clone_message(to),
                pos: *pos,
                name: clone_message(name),
                cause: Box::new((**cause).clone()),
            },
            Error::RuntimeError(s) => Error::RuntimeError(s.clone()),
            Error::RecursiveMutCallback => Error::RecursiveMutCallback,
            Error::CallbackDestructed => Error::CallbackDestructed,
            Error::UserDataDestructed => Error::UserDataDestructed,
            Error::UserDataBorrowError => Error::UserDataBorrowError,
            Error::UserDataBorrowMutError => Error::UserDataBorrowMutError,
            Error::UserDataTypeMismatch => Error::UserDataTypeMismatch,
            Error::MetaMethodRestricted(s) => Error::MetaMethodRestricted(s.clone()),
            Error::MetaMethodTypeError { method, kind, message } => {
                Error::MetaMethodTypeError {
                    method: method.clone(),
                    kind: *kind,
                    message: clone_message(message),
                }
            },
        }
    }
}

/// Clones an optional diagnostic text.
fn clone_message(m: &Option<String>) -> (r: Option<String>)
    ensures
        r == *m,
{
    match m {
        Some(s) => Some(s.clone()),
        None => None,
    }
}

impl Error {
    /// A short stable tag naming the error variant, for diagnostics.
    pub fn tag(&self) -> (r: &'static str)
    {
        match self {
            Error::ToLuaConversionError { .. } => "to-guest conversion failure",
            Error::FromLuaConversionError { .. } => "from-guest conversion failure",
            Error::BadArgument { .. } => "bad argument",
            Error::RuntimeError(_) => "runtime error",
            Error::RecursiveMutCallback => "recursive mutable access",
            Error::CallbackDestructed => "callback destroyed",
            Error::UserDataDestructed => "value already destroyed",
            Error::UserDataBorrowError => "borrow conflict",
            Error::UserDataBorrowMutError => "mutable borrow conflict",
            Error::UserDataTypeMismatch => "opaque object identity mismatch",
            Error::MetaMethodRestricted(_) => "restricted meta field",
            Error::MetaMethodTypeError { .. } => "meta field validation failure",
        }
    }
}

} // verus!
