pub mod coordinator;
pub mod messages;
