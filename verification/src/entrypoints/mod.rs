//! What happens at the entry points of the layer.

pub mod present;
pub mod submit;
pub mod swapchain;
