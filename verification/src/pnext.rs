//! Chains of extension structures.
//!
//! A Vulkan structure can be extended by a chain of others, each of which
//! says by its type what it is. Here a chain is the list of its links' types,
//! from the head on; the place of a link in it stands for the link.

use vstd::prelude::*;
use crate::vk_layer::{VkLayerFunction, LAYER_LINK_INFO};

verus! {

/// The first place from `i` on whose link has a type.
pub open spec fn first_from(chain: Seq<i32>, i: int, s_type: i32) -> Option<int>
    decreases chain.len() - i,
{
    if i < 0 || i >= chain.len() {
        None
    } else if chain[i] == s_type {
        Some(i)
    } else {
        first_from(chain, i + 1, s_type)
    }
}

/// The first link of a type.
pub open spec fn first_of(chain: Seq<i32>, s_type: i32) -> Option<int> {
    first_from(chain, 0, s_type)
}

/// Finds the first link with a matching type.
pub fn find(chain: &[i32], s_type: i32) -> (r: Option<usize>)
    ensures
        r is Some == first_of(chain@, s_type) is Some,
        r matches Some(i) ==> first_of(chain@, s_type) == Some(i as int),
{
    let mut i: usize = 0;
    while i < chain.len()
        invariant
            i <= chain@.len(),
            first_of(chain@, s_type) == first_from(chain@, i as int, s_type),
        decreases chain@.len() - i,
    {
        if chain[i] == s_type {
            return Some(i);
        }
        i += 1;
    }
    None
}

/// A link of a loader's chain: its type and the function that it serves.
#[derive(Debug, Clone, Copy, PartialEq, Eq, Structural)]
pub struct LayerLink {
    pub s_type: i32,
    pub function: VkLayerFunction,
}

/// The first place from `i` on with a loader's link of a type.
pub open spec fn link_from(chain: Seq<LayerLink>, i: int, s_type: i32) -> Option<int>
    decreases chain.len() - i,
{
    if i < 0 || i >= chain.len() {
        None
    } else if chain[i].s_type == s_type && chain[i].function.0 == LAYER_LINK_INFO {
        Some(i)
    } else {
        link_from(chain, i + 1, s_type)
    }
}

fn find_link(chain: &[LayerLink], s_type: i32) -> (r: Option<usize>)
    ensures
        r is Some == link_from(chain@, 0, s_type) is Some,
        r matches Some(i) ==> link_from(chain@, 0, s_type) == Some(i as int),
{
    let mut i: usize = 0;
    while i < chain.len()
        invariant
            i <= chain@.len(),
            link_from(chain@, 0, s_type) == link_from(chain@, i as int, s_type),
        decreases chain@.len() - i,
    {
        if chain[i].s_type == s_type && chain[i].function.0 == LAYER_LINK_INFO {
            return Some(i);
        }
        i += 1;
    }
    None
}

/// `VK_STRUCTURE_TYPE_LOADER_INSTANCE_CREATE_INFO`
pub const LOADER_INSTANCE_CREATE_INFO: i32 = 47;

/// `VK_STRUCTURE_TYPE_LOADER_DEVICE_CREATE_INFO`
pub const LOADER_DEVICE_CREATE_INFO: i32 = 48;

/// Finds the link through which the loader creates an instance.
pub fn find_instance_link(chain: &[LayerLink]) -> (r: Option<usize>)
    ensures
        r is Some == link_from(chain@, 0, LOADER_INSTANCE_CREATE_INFO) is Some,
        r matches Some(i) ==> link_from(chain@, 0, LOADER_INSTANCE_CREATE_INFO) == Some(i as int),
{
    find_link(chain, LOADER_INSTANCE_CREATE_INFO)
}

/// Finds the link through which the loader creates a device.
pub fn find_device_link(chain: &[LayerLink]) -> (r: Option<usize>)
    ensures
        r is Some == link_from(chain@, 0, LOADER_DEVICE_CREATE_INFO) is Some,
        r matches Some(i) ==> link_from(chain@, 0, LOADER_DEVICE_CREATE_INFO) == Some(i as int),
{
    find_link(chain, LOADER_DEVICE_CREATE_INFO)
}

/// What is found has the type, nothing before it has, and nothing is found
/// only where no link has it.
pub proof fn law_find_is_first(chain: Seq<i32>, s_type: i32)
    ensures
        match first_of(chain, s_type) {
            Some(i) => 0 <= i < chain.len() && chain[i] == s_type && forall|j: int|
                0 <= j < i ==> #[trigger] chain[j] != s_type,
            None => forall|j: int| 0 <= j < chain.len() ==> #[trigger] chain[j] != s_type,
        },
{
    lemma_first_from(chain, 0, s_type);
}

proof fn lemma_first_from(chain: Seq<i32>, i: int, s_type: i32)
    requires
        0 <= i,
    ensures
        match first_from(chain, i, s_type) {
            Some(k) => i <= k < chain.len() && chain[k] == s_type && forall|j: int|
                i <= j < k ==> #[trigger] chain[j] != s_type,
            None => forall|j: int| i <= j < chain.len() ==> #[trigger] chain[j] != s_type,
        },
    decreases chain.len() - i,
{
    if i < chain.len() && chain[i] != s_type {
        lemma_first_from(chain, i + 1, s_type);
    }
}

/// The first link of a type is found, and none only where there is none.
pub proof fn law_first_link_is_found(chain: &[i32], s_type: i32, r: Option<usize>)
    requires
        call_ensures(find, (chain, s_type), r),
    ensures
        r matches Some(i) ==> i < chain@.len() && chain@[i as int] == s_type && forall|j: int|
            0 <= j < i ==> #[trigger] chain@[j] != s_type,
        r is None ==> forall|j: int| 0 <= j < chain@.len() ==> #[trigger] chain@[j] != s_type,
{
    law_find_is_first(chain@, s_type);
}

proof fn lemma_link_from(chain: Seq<LayerLink>, i: int, s_type: i32)
    requires
        0 <= i,
    ensures
        match link_from(chain, i, s_type) {
            Some(k) => i <= k < chain.len() && chain[k].s_type == s_type && chain[k].function.0 == 0
                && forall|j: int|
                i <= j < k ==> (#[trigger] chain[j]).s_type != s_type || chain[j].function.0 != 0,
            None => forall|j: int|
                i <= j < chain.len() ==> (#[trigger] chain[j]).s_type != s_type
                    || chain[j].function.0 != 0,
        },
    decreases chain.len() - i,
{
    if i < chain.len() && !(chain[i].s_type == s_type && chain[i].function.0 == 0) {
        lemma_link_from(chain, i + 1, s_type);
    }
}

/// The loader's link is the first of its type, 47 for an instance and 48 for a
/// device, that serves the link function, 0: those of the type that serve
/// another are passed over.
pub proof fn law_loader_link_is_found(
    chain: &[LayerLink],
    instance: Option<usize>,
    device: Option<usize>,
)
    requires
        call_ensures(find_instance_link, (chain,), instance),
        call_ensures(find_device_link, (chain,), device),
    ensures
        instance matches Some(i) ==> i < chain@.len() && chain@[i as int].s_type == 47
            && chain@[i as int].function.0 == 0 && forall|j: int|
            0 <= j < i ==> (#[trigger] chain@[j]).s_type != 47 || chain@[j].function.0 != 0,
        instance is None ==> forall|j: int|
            0 <= j < chain@.len() ==> (#[trigger] chain@[j]).s_type != 47 || chain@[j].function.0
                != 0,
        device matches Some(i) ==> i < chain@.len() && chain@[i as int].s_type == 48
            && chain@[i as int].function.0 == 0 && forall|j: int|
            0 <= j < i ==> (#[trigger] chain@[j]).s_type != 48 || chain@[j].function.0 != 0,
        device is None ==> forall|j: int|
            0 <= j < chain@.len() ==> (#[trigger] chain@[j]).s_type != 48 || chain@[j].function.0
                != 0,
{
    lemma_link_from(chain@, 0, 47);
    lemma_link_from(chain@, 0, 48);
}

} // verus!
