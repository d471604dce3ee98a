//! The strategy behind `VK_NV_low_latency2`.
//!
//! A submission may carry the id of the present that it belongs to. The queue
//! side groups submissions by that id. At present time the device side claims
//! those groups, attaches them to the monitor of the swapchain, and has the
//! wait semaphore signalled once the GPU has finished.

pub mod device;
pub mod markers;
pub mod queue;
pub mod semaphore_signal;
pub mod swapchain_monitor;
