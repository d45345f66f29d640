//! Token distribution and type conversion for command-line argument binding.
//!
//! Given an ordered sequence of raw textual tokens from one command
//! invocation and an ordered list of parameter descriptors (each declaring
//! an arity kind), the distributor partitions the tokens into one token
//! group per descriptor over a single forward-only cursor.  The conversion
//! layer then turns each group into the typed value a parameter handler
//! expects, degrading to a default value on missing or malformed input
//! rather than failing.

pub mod convert;
pub mod numeral;
pub mod raw;

pub use convert::FromToken;
pub use raw::Argument;
pub use raw::ArgumentType;
pub use raw::Raw;
