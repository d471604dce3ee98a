//! Numbers of the Vulkan interface that the layer's rules speak of.

use vstd::prelude::*;

verus! {

pub const SUCCESS: i32 = 0;

pub const TIMEOUT: i32 = 2;

pub const INCOMPLETE: i32 = 5;

pub const ERROR_INITIALIZATION_FAILED: i32 = -3;

pub const ERROR_EXTENSION_NOT_PRESENT: i32 = -7;

/// `VK_PIPELINE_STAGE_2_TOP_OF_PIPE_BIT`
pub const STAGE_TOP_OF_PIPE: u64 = 0x1;

/// `VK_PIPELINE_STAGE_2_BOTTOM_OF_PIPE_BIT`
pub const STAGE_BOTTOM_OF_PIPE: u64 = 0x2000;

/// `VK_LATENCY_MARKER_SIMULATION_START_NV`
pub const MARKER_SIMULATION_START: i32 = 0;

/// `VK_LATENCY_MARKER_SIMULATION_END_NV`
pub const MARKER_SIMULATION_END: i32 = 1;

/// `VK_LATENCY_MARKER_RENDERSUBMIT_START_NV`
pub const MARKER_RENDERSUBMIT_START: i32 = 2;

/// `VK_LATENCY_MARKER_RENDERSUBMIT_END_NV`
pub const MARKER_RENDERSUBMIT_END: i32 = 3;

/// `VK_LATENCY_MARKER_PRESENT_START_NV`
pub const MARKER_PRESENT_START: i32 = 4;

/// `VK_LATENCY_MARKER_PRESENT_END_NV`
pub const MARKER_PRESENT_END: i32 = 5;

/// `VK_LATENCY_MARKER_INPUT_SAMPLE_NV`
pub const MARKER_INPUT_SAMPLE: i32 = 6;

} // verus!
