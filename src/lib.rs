//! Core logic of a small GPU text renderer: descriptor-layout inference,
//! glyph-atlas packing, per-frame glyph placement, frame scheduling, the
//! decisions made while setting up a device and a swapchain, keyboard input
//! and the message framing of the language-server client.

pub mod atlas;
pub mod compose;
pub mod descriptors;
pub mod device;
pub mod frames;
pub mod input;
pub mod lsp;
pub mod messages;
pub mod shader;
pub mod swapchain;
