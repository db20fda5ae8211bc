//! Decision logic for TCP forwarding proxies that couple connection activity
//! to a wake side channel.
//!
//! Two proxies share this core. One keeps the local machine awake while
//! traffic flows: an [`ActivityTracker`] counts the open connections and a
//! [`WakeLockSupervisor`] turns its edge signals into a debounced
//! acquire/release of a wake lock. The other wakes a sleeping remote host
//! before it forwards to it: a [`Handshake`] probes the target, sends one
//! wake signal if it is down, and polls until it answers or a deadline
//! passes.
//!
//! Nothing here performs I/O. Each state machine takes the events that a
//! driver observed, together with the current reading of a monotonic clock in
//! milliseconds, and answers with the next action for the driver to perform.

pub mod clock;
pub mod handshake;
pub mod mac;
pub mod supervisor;
pub mod tracker;
pub mod wake;

pub use handshake::Handshake;
pub use mac::parse_mac;
pub use supervisor::WakeLockSupervisor;
pub use tracker::ActivityTracker;
pub use wake::wake_payload;
