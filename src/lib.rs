//! Server core for the classic voxel protocol: wire codec, block volumes and
//! level files, worlds, packets, and the single-threaded dispatcher that
//! owns the player and world registries.
use vstd::prelude::*;

pub mod classic_client;
pub mod classic_server;
pub mod commands;
pub mod map;
pub mod packet;
pub mod player;
pub mod server;
pub mod transfer;
pub mod util;
pub mod world;

verus! {

} // verus!
