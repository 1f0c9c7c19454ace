//! Fluid simulation for a voxel world made of 16 x 256 x 16 chunks.
//!
//! Chunks (`chunk`) hold blocks and fluid levels; the world (`world`) keeps the loaded chunks
//! and the set of chunks whose fluid is still settling. Settling chunks are simulated in padded
//! tiles (`tile`) by a three-pass kernel (`kernel`), whose results are cut back into per-chunk
//! updates (`backend`). A scheduler with a load monitor (`system`, `load`) bounds the tiles in
//! flight and falls back to a sequential engine (`fallback`) while the tile path is overloaded.
//! `block`, `item`, `inventory` and `crafting` describe what cells and hotbar slots can hold
//! and how items are made.

pub mod backend;
pub mod block;
pub mod chunk;
pub mod fallback;
pub mod inventory;
pub mod item;
pub mod kernel;
pub mod load;
pub mod system;
pub mod tile;
pub mod world;
pub mod crafting;
