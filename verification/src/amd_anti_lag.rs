//! What the layer consumes of `VK_AMD_anti_lag`.

use vstd::prelude::*;

verus! {

pub const AMD_ANTI_LAG_NAME: &'static str = "VK_AMD_anti_lag";

pub const AMD_ANTI_LAG_SPEC_VERSION: u32 = 1;

pub const STRUCTURE_TYPE_PHYSICAL_DEVICE_ANTI_LAG_FEATURES_AMD: i32 = 1_000_476_000;

/// The mode "off". The other two, driver-controlled and on, both count as
/// enabled.
pub const ANTI_LAG_MODE_OFF: i32 = 2;

pub const ANTI_LAG_STAGE_INPUT: i32 = 0;

pub const ANTI_LAG_STAGE_PRESENT: i32 = 1;

#[derive(Debug, Clone, Copy, PartialEq, Eq, Structural)]
pub struct AntiLagModeAMD(pub i32);

#[derive(Debug, Clone, Copy, PartialEq, Eq, Structural)]
pub struct AntiLagStageAMD(pub i32);

/// The feature structure that an application finds out with whether the
/// extension is there.
#[derive(Debug, Clone, Copy)]
pub struct PhysicalDeviceAntiLagFeaturesAMD {
    pub anti_lag: bool,
}

/// Where in a frame an update comes.
#[derive(Debug, Clone, Copy)]
pub struct AntiLagPresentationInfoAMD {
    pub stage: AntiLagStageAMD,
    pub frame_index: u64,
}

/// One update.
#[derive(Debug, Clone, Copy)]
pub struct AntiLagDataAMD {
    pub mode: AntiLagModeAMD,
    pub max_fps: u32,
    pub presentation: Option<AntiLagPresentationInfoAMD>,
}

} // verus!
