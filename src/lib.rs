//! Verified core of a multi-agent orchestration substrate: budget ledger,
//! circuit breaking and tier routing, consensus folding, and tiered memory.
pub mod text;
pub mod ledger;
pub mod circuit;
pub mod router;
pub mod vox;
pub mod resolver;
pub mod order;
pub mod memory;
pub mod mailbox;
pub mod aura;
pub mod working;
pub mod graph;
pub mod toolbox;
pub mod prompts;
pub mod tools;
pub mod llm;
pub mod archive;
pub mod bus;
pub mod cortex;
pub mod agent;
pub mod reflexion;
