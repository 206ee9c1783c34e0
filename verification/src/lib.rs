//! Enforcement of architectural boundaries between code packs: a privacy
//! checker over cross-pack constant references, a violation engine that
//! reconciles fresh findings against a persisted baseline, an
//! unnecessary-dependency analyzer, and a dependents query.

pub mod checker;
pub mod dependents;
pub mod error;
pub mod laws;
pub mod pack;
pub mod privacy;
pub mod strings;
