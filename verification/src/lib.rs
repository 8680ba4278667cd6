//! Per-user dialogue orchestration: dispatching an inbound interaction to the
//! dialogue controller that owns the conversation, executing the side effects
//! the controller requests through a messaging adapter, and committing the
//! controller that owns the dialogue back to the store.

pub mod dialogues;
pub mod controller;
