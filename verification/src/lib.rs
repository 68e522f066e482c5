//! Verified core of the NV1 robot's ROS nodes: the camera pipeline
//! description, blob selection and colour thresholds of the vision node,
//! the serial framing and decisions of the hub communicator, and the
//! decision clock of the policy node.
pub mod decimal;
pub mod pipeline;
pub mod vision;
pub mod hub;
pub mod policy;
