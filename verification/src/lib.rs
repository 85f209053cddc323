//! Hybrid mount engine: a layered-overlay composition planner for Android
//! module trees, together with the binary control protocol of a cooperating
//! file-hiding kernel driver.
//!
//! The crate holds the decision logic and the wire encodings; the mount
//! syscalls and ioctls themselves are performed by the surrounding binary,
//! which feeds their outcomes back into the state machines defined here.

pub mod bytes;
pub mod classify;
pub mod compose;
pub mod hidectl;
pub mod hymo;
pub mod ioc;
pub mod storage;
pub mod util;
