//! Message types of a robotics publish/subscribe middleware, their little-endian
//! CDR wire codec, and a decoder for self-describing point clouds.

pub mod builtin_interfaces;
pub mod bytes;
pub mod edgefirst_msgs;
pub mod foxglove_msgs;
pub mod geometry_msgs;
pub mod ieee;
pub mod pointcloud;
pub mod rosgraph_msgs;
pub mod schema_registry;
pub mod sensor_msgs;
pub mod serde_cdr;
pub mod service;
pub mod std_msgs;
pub mod text;
pub mod wire;

pub use pointcloud::{decode_pcd, Point};
