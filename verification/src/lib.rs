//! A string interning pool and a compact label handle built on top of it.
//!
//! The pool deduplicates strings into stable, copyable keys; a [`label::Label`]
//! wraps one such key, so that equality, ordering and hashing of labels cost
//! one integer comparison instead of a byte-by-byte string comparison.

pub mod label;
pub mod pool;
