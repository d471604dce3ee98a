//! The handshake with the loader.

use vstd::prelude::*;
use crate::vk;

verus! {

/// The highest interface version that the layer understands. The loader and
/// the layer meet at the lower of their two.
pub const CURRENT_LOADER_LAYER_INTERFACE_VERSION: u32 = 2;

/// What a link of a loader's chain is for.
#[derive(Debug, Clone, Copy, PartialEq, Eq, Structural)]
pub struct VkLayerFunction(pub u32);

/// The function of the link that a layer is called through.
pub const LAYER_LINK_INFO: u32 = 0;

/// What the layer answers: the version agreed on. The two functions that look
/// up entry points are handed over; the one for physical devices is not used.
#[derive(Debug, Clone, Copy, PartialEq, Eq, Structural)]
pub struct Negotiated {
    pub version: u32,
    pub gives_instance_lookup: bool,
    pub gives_device_lookup: bool,
    pub gives_physical_device_lookup: bool,
}

/// Agrees on an interface version with the loader, which must offer one.
pub fn negotiate(loader_version: Option<u32>) -> (r: Result<Negotiated, i32>)
    ensures
        match loader_version {
            None => r == Err::<Negotiated, i32>(vk::ERROR_INITIALIZATION_FAILED),
            Some(v) => r == Ok::<Negotiated, i32>(
                Negotiated {
                    version: if v < CURRENT_LOADER_LAYER_INTERFACE_VERSION {
                        v
                    } else {
                        CURRENT_LOADER_LAYER_INTERFACE_VERSION
                    },
                    gives_instance_lookup: true,
                    gives_device_lookup: true,
                    gives_physical_device_lookup: false,
                },
            ),
        },
{
    match loader_version {
        None => Err(vk::ERROR_INITIALIZATION_FAILED),
        Some(v) => {
            let version: u32 = if v < CURRENT_LOADER_LAYER_INTERFACE_VERSION {
                v
            } else {
                CURRENT_LOADER_LAYER_INTERFACE_VERSION
            };
            Ok(
                Negotiated {
                    version,
                    gives_instance_lookup: true,
                    gives_device_lookup: true,
                    gives_physical_device_lookup: false,
                },
            )
        },
    }
}

/// Finds the way on when an instance or a device is created: the place of the
/// loader's link, where there is one with everything that the next layer
/// needs.
pub fn creation_link(
    has_create_info: bool,
    link: Option<usize>,
    has_layer_info: bool,
    has_next_functions: bool,
) -> (r: Result<usize, i32>)
    ensures
        match r {
            Ok(i) => has_create_info && link == Some(i) && has_layer_info && has_next_functions,
            Err(e) => {
                &&& e == vk::ERROR_INITIALIZATION_FAILED
                &&& !(has_create_info && link is Some && has_layer_info && has_next_functions)
            },
        },
{
    if !has_create_info {
        return Err(vk::ERROR_INITIALIZATION_FAILED);
    }
    match link {
        None => Err(vk::ERROR_INITIALIZATION_FAILED),
        Some(i) => {
            if !has_layer_info || !has_next_functions {
                Err(vk::ERROR_INITIALIZATION_FAILED)
            } else {
                Ok(i)
            }
        },
    }
}

/// The loader and the layer meet at the lower of their versions, of which the
/// layer's is 2. Without an offer there is no agreement (-3). The layer hands
/// over how to look up functions of instances and devices, and of physical
/// devices not.
pub proof fn law_versions_meet_at_the_lower(loader_version: Option<u32>, r: Result<Negotiated, i32>)
    requires
        call_ensures(negotiate, (loader_version,), r),
    ensures
        r is Ok <==> loader_version is Some,
        r matches Err(e) ==> e == -3,
        r matches Ok(n) ==> {
            let v = loader_version->0;
            &&& n.version <= v && n.version <= 2
            &&& n.version == v || n.version == 2
            &&& n.gives_instance_lookup && n.gives_device_lookup && !n.gives_physical_device_lookup
        },
{
}

/// The way on is the loader's link, and only where nothing is missing; else
/// the creation fails (-3).
pub proof fn law_nothing_may_be_missing(
    has_create_info: bool,
    link: Option<usize>,
    has_layer_info: bool,
    has_next_functions: bool,
    r: Result<usize, i32>,
)
    requires
        call_ensures(
            creation_link,
            (has_create_info, link, has_layer_info, has_next_functions),
            r,
        ),
    ensures
        r is Ok <==> has_create_info && link is Some && has_layer_info && has_next_functions,
        r matches Ok(i) ==> link == Some(i),
        r matches Err(e) ==> e == -3,
{
}

} // verus!
