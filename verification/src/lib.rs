//! Core of a game-install engine: manifest records and their field codec,
//! delta synthesis between two builds, layout planning, and the ordered,
//! bounded build pipeline that reassembles files from chunks.

pub mod chunk_key;
pub mod chunk_pass;
pub mod codec;
pub mod delta;
pub mod hash;
pub mod launch;
pub mod layout;
pub mod manifest;
pub mod orchestrator;
pub mod pipeline;
pub mod progress;
pub mod store;
pub mod text;
pub mod text_map;
pub mod tree_check;
pub mod write_order;
pub mod write_queue;
