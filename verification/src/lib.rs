//! Verified core of a native call-interception extension: a typed view of
//! scripting-runtime argument tags, the interceptor's decision rules, and the
//! deferred task queue that carries captured work from the interception
//! context to a periodic drain.

pub mod lua;
pub mod task;
pub mod queue;
pub mod intercept;
pub mod drain;
