//! Compile-time "orderless" call generation, modelled on plain values.
//!
//! A target function's parameters form an ordered mapping from names to
//! optional default expressions; a call site supplies named overrides in any
//! order.  The resolver merges the two into a fully positional argument list,
//! rejecting unknown names and defaultless parameters that were never given a
//! value.  Expressions are carried as opaque source text throughout.

pub mod call_orderless;
pub mod create_orderless;
pub mod impl_orderless;
pub mod make_orderless;
pub mod utils;

pub use crate::call_orderless::call_orderless;
pub use crate::create_orderless::create_orderless;
pub use crate::impl_orderless::impl_orderless;
pub use crate::make_orderless::make_orderless;
