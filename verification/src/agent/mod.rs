//! Agent orchestration: eight agents, one per trigram role.

pub mod orchestrator;

pub use orchestrator::AgentRole;
