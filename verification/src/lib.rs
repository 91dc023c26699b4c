//! Core of a desktop shell that receives "open this file" signals from the
//! operating system — startup arguments, relaunch notifications, deep links,
//! platform file-open events — and hands them to a user-interface surface
//! exactly once, in order, even though the surface becomes ready to receive
//! them only at some unknown later moment.
//!
//! The pipeline is: raw OS tokens are normalized into filesystem paths
//! ([`normalize`]), file contents are turned into transport-ready records
//! ([`encode`]), and a readiness-gated dispatcher ([`dispatch`]) either
//! queues the paths or releases them for delivery, depending on whether the
//! surface has signalled readiness.

pub mod dispatch;
pub mod encode;
pub mod normalize;
