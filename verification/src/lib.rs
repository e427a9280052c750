//! Two questions about a crate that is being compiled: which of its modules
//! use which others, and which of its items the compiler has to generate code
//! for before anything has called them.
//!
//! The compiler's answers are taken as plain values ([`tcx::TyCtxt`]); what is
//! made of them is decided, and proved, here.

pub mod collect;
pub mod coroutine;
pub mod def;
pub mod deps;
pub mod fx;
pub mod laws;
pub mod mono;
pub mod roots;
pub mod span;
pub mod tcx;
pub mod validate;
