//! Shared-state core of a motion synchronisation service: routing of incoming
//! connections, the table of client poses, the writer session state machine,
//! the broadcast decisions for subscribers, and the signed axis maps that relate
//! device frames to the table's frame.

pub mod role;
pub mod route;
pub mod pose_table;
pub mod session;
pub mod broadcast;
pub mod axes;
