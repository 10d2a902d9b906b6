//! An in-process message bus with a deterministic simulator: typed messages
//! routed between named subscribers by priority lane, driven by a tick
//! clock, and a twin engine that replays a script of events against the same
//! subscribers.
pub mod envelope;
pub mod lanes;
pub mod lifecycle;
pub mod registry;
pub mod schedule;
pub mod simulator;

pub use envelope::{Envelope, Message, NoOpHook, PublishHook, Subscriber, Variant};
pub use lanes::{lane_for, normalize_lane_count, poll_order, Lanes};
pub use lifecycle::{BusError, Lifecycle};
pub use registry::Registry;
pub use schedule::{Decision, TickSchedule};
pub use simulator::{Simulator, SimulatorEvent};
