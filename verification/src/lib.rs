//! Offline web-page mirroring library.
//!
//! The library holds the verified core of a page mirroring pipeline:
//! deterministic output-path derivation, HTML asset localization planning
//! and rewriting, the special-case video resolver decisions, the page
//! fetch state machine, the bounded-concurrency scheduler state, and the
//! category index tree with its HTML rendering.

pub mod text;

pub mod model;

pub mod localize;

pub mod special;

pub mod fetch;

pub mod sched;

pub mod index;


