//! Admission control and memoization primitives for clients of a
//! rate-limited remote API: a token-bucket rate limiter and a bounded
//! in-memory cache with per-entry expiry.
//!
//! Both components are deterministic state machines over an injected
//! millisecond clock; the caller (or an outer shell) supplies the clock
//! readings and any locking.

pub mod cache;
pub mod rate_limiter;
pub mod records;
