//! The contract shared by the router, the agent and the operator, as plain values.
pub mod v1;
