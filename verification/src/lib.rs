pub mod modules;
pub mod packets;
pub mod state;
pub mod structures;
pub mod text;
