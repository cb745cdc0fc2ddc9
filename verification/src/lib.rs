//! State, scheduling rules and request handling of the tunnel daemon.
pub mod dispatch;
pub mod handlers;
pub mod heartbeat;
pub mod json;
pub mod latch;
pub mod log_rotation;
pub mod managers;
pub mod model;
pub mod names;
pub mod paths;
pub mod server;
pub mod split;
pub mod starts;
pub mod text;
pub mod tunnel_maintenance;
pub mod tunnel_runtime;
pub mod workers;
