//! The entry points that the layer calls and those that it provides.
//!
//! Only the entry points that the layer calls are resolved. Those of the core
//! interface are required: that one is missing signals a broken loader or
//! driver. Those of later versions and of extensions are optional, some of
//! them under a second name, and the layer does without what is missing.

use vstd::prelude::*;
use vstd::string::*;
use crate::physical_device::same_bytes;
use crate::text::same_str;

verus! {

/// (name, second name or nothing, whether it is required)
pub type Entry = (&'static str, &'static str, bool);

/// What the layer calls of an instance.
pub const INSTANCE_ENTRIES: [(&'static str, &'static str, bool); 10] = [
    ("vkDestroyInstance", "", true),
    ("vkEnumeratePhysicalDevices", "", true),
    ("vkGetPhysicalDeviceProperties", "", true),
    ("vkEnumerateDeviceExtensionProperties", "", true),
    ("vkGetPhysicalDeviceQueueFamilyProperties", "", true),
    ("vkGetPhysicalDeviceProperties2", "vkGetPhysicalDeviceProperties2KHR", false),
    ("vkGetPhysicalDeviceProperties2KHR", "", false),
    ("vkGetPhysicalDeviceFeatures2", "vkGetPhysicalDeviceFeatures2KHR", false),
    ("vkGetPhysicalDeviceFeatures2KHR", "", false),
    ("vkGetPhysicalDeviceSurfaceCapabilities2KHR", "", false),
];

/// What the layer calls of a device.
pub const DEVICE_ENTRIES: [(&'static str, &'static str, bool); 30] = [
    ("vkDestroyDevice", "", true),
    ("vkGetDeviceQueue", "", true),
    ("vkQueueSubmit", "", true),
    ("vkCreateCommandPool", "", true),
    ("vkDestroyCommandPool", "", true),
    ("vkAllocateCommandBuffers", "", true),
    ("vkFreeCommandBuffers", "", true),
    ("vkBeginCommandBuffer", "", true),
    ("vkEndCommandBuffer", "", true),
    ("vkResetCommandBuffer", "", true),
    ("vkCreateQueryPool", "", true),
    ("vkDestroyQueryPool", "", true),
    ("vkGetQueryPoolResults", "", true),
    ("vkDeviceWaitIdle", "", true),
    ("vkGetDeviceQueue2", "", false),
    ("vkQueueSubmit2", "vkQueueSubmit2KHR", false),
    ("vkQueueSubmit2KHR", "", false),
    ("vkQueuePresentKHR", "", false),
    ("vkCmdWriteTimestamp2", "vkCmdWriteTimestamp2KHR", false),
    ("vkResetQueryPool", "vkResetQueryPoolEXT", false),
    ("vkGetCalibratedTimestampsKHR", "vkGetCalibratedTimestampsEXT", false),
    ("vkCreateSwapchainKHR", "", false),
    ("vkDestroySwapchainKHR", "", false),
    ("vkAcquireNextImageKHR", "", false),
    ("vkAcquireNextImage2KHR", "", false),
    ("vkSignalSemaphore", "vkSignalSemaphoreKHR", false),
    ("vkGetSemaphoreCounterValue", "vkGetSemaphoreCounterValueKHR", false),
    ("vkWaitForPresentKHR", "", false),
    ("vkGetPastPresentationTimingGOOGLE", "", false),
    ("vkGetRefreshCycleDurationGOOGLE", "", false),
];

/// What an entry resolves to: what its name gives, or else its second name.
pub open spec fn resolved(entry: Entry, first: Option<u64>, second: Option<u64>) -> Option<u64> {
    if first is Some {
        first
    } else if entry.1@.len() > 0 {
        second
    } else {
        None
    }
}

/// Whether an entry may stay as it is resolved.
pub open spec fn acceptable(entry: Entry, first: Option<u64>, second: Option<u64>) -> bool {
    entry.2 ==> resolved(entry, first, second) is Some
}

/// Resolves all entries of a table; where a required one is missing, says
/// which.
pub fn load_table(entries: &[Entry], first: &[Option<u64>], second: &[Option<u64>]) -> (r: Result<
    Vec<Option<u64>>,
    usize,
>)
    requires
        first@.len() == entries@.len(),
        second@.len() == entries@.len(),
    ensures
        match r {
            Ok(table) => {
                &&& table@.len() == entries@.len()
                &&& forall|i: int|
                    0 <= i < entries@.len() ==> #[trigger] table@[i] == resolved(
                        entries@[i],
                        first@[i],
                        second@[i],
                    ) && acceptable(entries@[i], first@[i], second@[i])
            },
            Err(missing) => {
                &&& missing < entries@.len()
                &&& !acceptable(
                    entries@[missing as int],
                    first@[missing as int],
                    second@[missing as int],
                )
                &&& forall|i: int|
                    0 <= i < missing ==> acceptable(#[trigger] entries@[i], first@[i], second@[i])
            },
        },
{
    let mut table: Vec<Option<u64>> = Vec::new();
    let mut i: usize = 0;
    while i < entries.len()
        invariant
            i <= entries@.len(),
            first@.len() == entries@.len(),
            second@.len() == entries@.len(),
            table@.len() == i,
            forall|j: int|
                0 <= j < i ==> #[trigger] table@[j] == resolved(entries@[j], first@[j], second@[j]),
            forall|j: int|
                0 <= j < i ==> acceptable(#[trigger] entries@[j], first@[j], second@[j]),
        decreases entries@.len() - i,
    {
        let (_, fallback, required): Entry = entries[i];
        let address: Option<u64> = match first[i] {
            Some(a) => Some(a),
            None => {
                if fallback.is_empty() {
                    None
                } else {
                    second[i]
                }
            },
        };
        if required && address.is_none() {
            return Err(i);
        }
        table.push(address);
        i += 1;
    }
    Ok(table)
}

/// The place of a name in a table, from `i` on.
pub open spec fn entry_from(entries: Seq<Entry>, i: int, name: Seq<char>) -> Option<int>
    decreases entries.len() - i,
{
    if i < 0 || i >= entries.len() {
        None
    } else if entries[i].0@ == name {
        Some(i)
    } else {
        entry_from(entries, i + 1, name)
    }
}

/// What a table says of a name.
pub open spec fn address_in(entries: Seq<Entry>, table: Seq<Option<u64>>, name: Seq<char>) -> Option<
    u64,
> {
    match entry_from(entries, 0, name) {
        Some(i) => if i < table.len() {
            table[i]
        } else {
            None
        },
        None => None,
    }
}

fn address_of(entries: &[Entry], table: &Vec<Option<u64>>, name: &str) -> (r: Option<u64>)
    ensures
        r == address_in(entries@, table@, name@),
{
    let mut i: usize = 0;
    while i < entries.len()
        invariant
            i <= entries@.len(),
            entry_from(entries@, 0, name@) == entry_from(entries@, i as int, name@),
        decreases entries@.len() - i,
    {
        let (entry_name, _, _): Entry = entries[i];
        if same_str(entry_name, name) {
            return if i < table.len() {
                table[i]
            } else {
                None
            };
        }
        i += 1;
    }
    None
}

/// The entry points of an instance, in the order of [`INSTANCE_ENTRIES`].
#[derive(Debug)]
pub struct InstanceTable {
    pub addresses: Vec<Option<u64>>,
}

/// The entry points of a device, in the order of [`DEVICE_ENTRIES`].
#[derive(Debug)]
pub struct DeviceTable {
    pub addresses: Vec<Option<u64>>,
}

impl InstanceTable {
    /// Builds the table from what the names, and the second names, give.
    pub fn load(first: &[Option<u64>], second: &[Option<u64>]) -> (r: Result<Self, usize>)
        requires
            first@.len() == 10,
            second@.len() == 10,
        ensures
            r is Ok == (forall|i: int|
                0 <= i < 10 ==> acceptable(
                    #[trigger] INSTANCE_ENTRIES@[i],
                    first@[i],
                    second@[i],
                )),
            r matches Ok(t) ==> t.addresses@.len() == 10 && forall|i: int|
                0 <= i < 10 ==> #[trigger] t.addresses@[i] == resolved(
                    INSTANCE_ENTRIES@[i],
                    first@[i],
                    second@[i],
                ),
            r matches Err(i) ==> i < 10 && !acceptable(
                INSTANCE_ENTRIES@[i as int],
                first@[i as int],
                second@[i as int],
            ),
    {
        match load_table(INSTANCE_ENTRIES.as_slice(), first, second) {
            Ok(addresses) => {
                proof {
                    assert forall|i: int| 0 <= i < 10 implies acceptable(
                        #[trigger] INSTANCE_ENTRIES@[i],
                        first@[i],
                        second@[i],
                    ) by {
                        assert(addresses@[i] == addresses@[i]);
                    }
                }
                Ok(InstanceTable { addresses })
            },
            Err(i) => Err(i),
        }
    }

    pub fn address(&self, name: &str) -> (r: Option<u64>)
        ensures
            r == address_in(INSTANCE_ENTRIES@, self.addresses@, name@),
    {
        address_of(INSTANCE_ENTRIES.as_slice(), &self.addresses, name)
    }
}

impl DeviceTable {
    /// Builds the table from what the names, and the second names, give.
    pub fn load(first: &[Option<u64>], second: &[Option<u64>]) -> (r: Result<Self, usize>)
        requires
            first@.len() == 30,
            second@.len() == 30,
        ensures
            r is Ok == (forall|i: int|
                0 <= i < 30 ==> acceptable(#[trigger] DEVICE_ENTRIES@[i], first@[i], second@[i])),
            r matches Ok(t) ==> t.addresses@.len() == 30 && forall|i: int|
                0 <= i < 30 ==> #[trigger] t.addresses@[i] == resolved(
                    DEVICE_ENTRIES@[i],
                    first@[i],
                    second@[i],
                ),
            r matches Err(i) ==> i < 30 && !acceptable(
                DEVICE_ENTRIES@[i as int],
                first@[i as int],
                second@[i as int],
            ),
    {
        match load_table(DEVICE_ENTRIES.as_slice(), first, second) {
            Ok(addresses) => {
                proof {
                    assert forall|i: int| 0 <= i < 30 implies acceptable(
                        #[trigger] DEVICE_ENTRIES@[i],
                        first@[i],
                        second@[i],
                    ) by {
                        assert(addresses@[i] == addresses@[i]);
                    }
                }
                Ok(DeviceTable { addresses })
            },
            Err(i) => Err(i),
        }
    }

    pub fn address(&self, name: &str) -> (r: Option<u64>)
        ensures
            r == address_in(DEVICE_ENTRIES@, self.addresses@, name@),
    {
        address_of(DEVICE_ENTRIES.as_slice(), &self.addresses, name)
    }
}

/// The driver's function for a call that came in under one of two names: the
/// address of the slot of that name. The slot of the core name may itself have
/// been resolved by its second name when the table was loaded.
pub fn pick_variant(core: Option<u64>, khr: Option<u64>, called_as_khr: bool) -> (r: Option<u64>)
    ensures
        r == (if called_as_khr {
            khr
        } else {
            core
        }),
{
    if called_as_khr {
        khr
    } else {
        core
    }
}

/// What the layer provides of an instance.
pub const INSTANCE_FUNCTIONS: [&'static str; 13] = [
    "vkGetInstanceProcAddr",
    "vkGetDeviceProcAddr",
    "vkCreateInstance",
    "vkDestroyInstance",
    "vkEnumeratePhysicalDevices",
    "vkCreateDevice",
    "vkEnumerateDeviceExtensionProperties",
    "vkGetPhysicalDeviceProperties",
    "vkGetPhysicalDeviceProperties2",
    "vkGetPhysicalDeviceProperties2KHR",
    "vkGetPhysicalDeviceFeatures2",
    "vkGetPhysicalDeviceFeatures2KHR",
    "vkGetPhysicalDeviceSurfaceCapabilities2KHR",
];

/// What the layer provides of a device.
pub const DEVICE_FUNCTIONS: [&'static str; 18] = [
    "vkGetDeviceProcAddr",
    "vkDestroyDevice",
    "vkGetDeviceQueue",
    "vkGetDeviceQueue2",
    "vkQueueSubmit",
    "vkQueueSubmit2",
    "vkQueueSubmit2KHR",
    "vkQueuePresentKHR",
    "vkCreateSwapchainKHR",
    "vkDestroySwapchainKHR",
    "vkAcquireNextImageKHR",
    "vkAcquireNextImage2KHR",
    "vkAntiLagUpdateAMD",
    "vkLatencySleepNV",
    "vkSetLatencySleepModeNV",
    "vkSetLatencyMarkerNV",
    "vkGetLatencyTimingsNV",
    "vkQueueNotifyOutOfBandNV",
];

/// The place of a function in a list, from `i` on.
pub open spec fn function_from(list: Seq<&'static str>, i: int, name: Seq<u8>) -> Option<int>
    decreases list.len() - i,
{
    if i < 0 || i >= list.len() {
        None
    } else if list[i].spec_bytes() == name {
        Some(i)
    } else {
        function_from(list, i + 1, name)
    }
}

/// What a lookup of an entry point gives.
#[derive(Debug, Clone, Copy, PartialEq, Eq, Structural)]
pub enum Lookup {
    /// The layer's own function at this place of its list.
    Own(usize),
    /// What the next layer gives.
    Forward,
    Nothing,
}

fn find_function(list: &[&'static str], name: &[u8]) -> (r: Option<usize>)
    ensures
        r is Some == function_from(list@, 0, name@) is Some,
        r matches Some(i) ==> function_from(list@, 0, name@) == Some(i as int),
{
    let mut i: usize = 0;
    while i < list.len()
        invariant
            i <= list@.len(),
            function_from(list@, 0, name@) == function_from(list@, i as int, name@),
        decreases list@.len() - i,
    {
        if same_bytes(list[i].as_bytes(), name) {
            return Some(i);
        }
        i += 1;
    }
    None
}

/// The rule of a lookup: the layer's own function by its name, and else the
/// next layer's, where the object is known.
pub open spec fn lookup_of(list: Seq<&'static str>, name: Seq<u8>, known: bool) -> Lookup {
    match function_from(list, 0, name) {
        Some(i) => Lookup::Own(i as usize),
        None => if known {
            Lookup::Forward
        } else {
            Lookup::Nothing
        },
    }
}

/// Looks an entry point of an instance up. The layer's own functions can be
/// looked up without an instance.
pub fn get_instance_proc_addr(name: Option<&[u8]>, instance_known: bool) -> (r: Lookup)
    ensures
        r == (match name {
            None => Lookup::Nothing,
            Some(n) => lookup_of(INSTANCE_FUNCTIONS@, n@, instance_known),
        }),
{
    match name {
        None => Lookup::Nothing,
        Some(n) => {
            match find_function(INSTANCE_FUNCTIONS.as_slice(), n) {
                Some(i) => Lookup::Own(i),
                None => {
                    if instance_known {
                        Lookup::Forward
                    } else {
                        Lookup::Nothing
                    }
                },
            }
        },
    }
}

/// Looks an entry point of a device up, which needs a device.
pub fn get_device_proc_addr(name: Option<&[u8]>, device_given: bool, device_known: bool) -> (r:
    Lookup)
    ensures
        r == (match name {
            None => Lookup::Nothing,
            Some(n) => if !device_given {
                Lookup::Nothing
            } else {
                lookup_of(DEVICE_FUNCTIONS@, n@, device_known)
            },
        }),
{
    match name {
        None => Lookup::Nothing,
        Some(n) => {
            if !device_given {
                return Lookup::Nothing;
            }
            match find_function(DEVICE_FUNCTIONS.as_slice(), n) {
                Some(i) => Lookup::Own(i),
                None => {
                    if device_known {
                        Lookup::Forward
                    } else {
                        Lookup::Nothing
                    }
                },
            }
        },
    }
}

/// An entry has the address of its name, or else of its second name where it
/// has one. A table is complete only where every required entry has an
/// address; otherwise the first that has none is named.
pub proof fn law_table_has_what_is_required(
    entries: &[Entry],
    first: &[Option<u64>],
    second: &[Option<u64>],
    r: Result<Vec<Option<u64>>, usize>,
    i: int,
)
    requires
        first@.len() == entries@.len(),
        second@.len() == entries@.len(),
        call_ensures(load_table, (entries, first, second), r),
        0 <= i < entries@.len(),
    ensures
        r matches Ok(table) ==> {
            &&& table@.len() == entries@.len()
            &&& first@[i] is Some ==> table@[i] == first@[i]
            &&& first@[i] is None && entries@[i].1@.len() > 0 ==> table@[i] == second@[i]
            &&& first@[i] is None && entries@[i].1@.len() == 0 ==> table@[i] is None
            &&& entries@[i].2 ==> table@[i] is Some
        },
        r matches Err(missing) ==> {
            &&& missing < entries@.len()
            &&& entries@[missing as int].2
            &&& first@[missing as int] is None
            &&& entries@[missing as int].1@.len() > 0 ==> second@[missing as int] is None
            &&& i < missing && entries@[i].2 ==> first@[i] is Some || (entries@[i].1@.len() > 0
                && second@[i] is Some)
        },
{
    if let Ok(table) = r {
        assert(table@[i] == resolved(entries@[i], first@[i], second@[i]));
    }
}

proof fn lemma_entry_from(entries: Seq<Entry>, from: int, i: int, name: Seq<char>)
    requires
        0 <= from <= i < entries.len(),
        entries[i].0@ == name,
        forall|j: int| from <= j < i ==> (#[trigger] entries[j]).0@ != name,
    ensures
        entry_from(entries, from, name) == Some(i),
    decreases i - from,
{
    if from < i {
        lemma_entry_from(entries, from + 1, i, name);
    }
}

proof fn lemma_no_entry(entries: Seq<Entry>, from: int, name: Seq<char>)
    requires
        0 <= from,
        forall|j: int| from <= j < entries.len() ==> (#[trigger] entries[j]).0@ != name,
    ensures
        entry_from(entries, from, name) is None,
    decreases entries.len() - from,
{
    if from < entries.len() {
        lemma_no_entry(entries, from + 1, name);
    }
}

/// An entry point is found in its table under its own name, and a name that
/// the table does not have finds nothing.
pub proof fn law_address_is_under_its_name(
    t: &DeviceTable,
    u: &InstanceTable,
    name: &str,
    of_device: Option<u64>,
    of_instance: Option<u64>,
    i: int,
)
    requires
        t.addresses@.len() == 30,
        u.addresses@.len() == 10,
        call_ensures(DeviceTable::address, (t, name), of_device),
        call_ensures(InstanceTable::address, (u, name), of_instance),
    ensures
        0 <= i < 30 && DEVICE_ENTRIES@[i].0@ == name@ && (forall|j: int|
            0 <= j < i ==> (#[trigger] DEVICE_ENTRIES@[j]).0@ != name@) ==> of_device
            == t.addresses@[i],
        (forall|j: int| 0 <= j < 30 ==> (#[trigger] DEVICE_ENTRIES@[j]).0@ != name@)
            ==> of_device is None,
        0 <= i < 10 && INSTANCE_ENTRIES@[i].0@ == name@ && (forall|j: int|
            0 <= j < i ==> (#[trigger] INSTANCE_ENTRIES@[j]).0@ != name@) ==> of_instance
            == u.addresses@[i],
        (forall|j: int| 0 <= j < 10 ==> (#[trigger] INSTANCE_ENTRIES@[j]).0@ != name@)
            ==> of_instance is None,
{
    if 0 <= i < 30 && DEVICE_ENTRIES@[i].0@ == name@ && (forall|j: int|
        0 <= j < i ==> (#[trigger] DEVICE_ENTRIES@[j]).0@ != name@) {
        lemma_entry_from(DEVICE_ENTRIES@, 0, i, name@);
    }
    if forall|j: int| 0 <= j < 30 ==> (#[trigger] DEVICE_ENTRIES@[j]).0@ != name@ {
        lemma_no_entry(DEVICE_ENTRIES@, 0, name@);
    }
    if 0 <= i < 10 && INSTANCE_ENTRIES@[i].0@ == name@ && (forall|j: int|
        0 <= j < i ==> (#[trigger] INSTANCE_ENTRIES@[j]).0@ != name@) {
        lemma_entry_from(INSTANCE_ENTRIES@, 0, i, name@);
    }
    if forall|j: int| 0 <= j < 10 ==> (#[trigger] INSTANCE_ENTRIES@[j]).0@ != name@ {
        lemma_no_entry(INSTANCE_ENTRIES@, 0, name@);
    }
}

/// A table is loaded where every required entry point is there, by its name or
/// its second name, and each of its entries is what these give.
pub proof fn law_tables_are_loaded_whole(
    first: &[Option<u64>],
    second: &[Option<u64>],
    r: Result<DeviceTable, usize>,
    s: Result<InstanceTable, usize>,
    instance_first: &[Option<u64>],
    instance_second: &[Option<u64>],
    i: int,
)
    requires
        first@.len() == 30,
        second@.len() == 30,
        instance_first@.len() == 10,
        instance_second@.len() == 10,
        call_ensures(DeviceTable::load, (first, second), r),
        call_ensures(InstanceTable::load, (instance_first, instance_second), s),
    ensures
        r matches Ok(t) ==> 0 <= i < 30 ==> {
            &&& first@[i] is Some ==> t.addresses@[i] == first@[i]
            &&& first@[i] is None ==> t.addresses@[i] is None || t.addresses@[i] == second@[i]
            &&& DEVICE_ENTRIES@[i].2 ==> t.addresses@[i] is Some
        },
        r matches Err(m) ==> m < 30 && DEVICE_ENTRIES@[m as int].2 && first@[m as int] is None,
        s matches Ok(t) ==> 0 <= i < 10 ==> {
            &&& instance_first@[i] is Some ==> t.addresses@[i] == instance_first@[i]
            &&& instance_first@[i] is None ==> t.addresses@[i] is None || t.addresses@[i]
                == instance_second@[i]
            &&& INSTANCE_ENTRIES@[i].2 ==> t.addresses@[i] is Some
        },
        s matches Err(m) ==> m < 10 && INSTANCE_ENTRIES@[m as int].2
            && instance_first@[m as int] is None,
{
    if r is Ok && 0 <= i < 30 {
        assert(acceptable(DEVICE_ENTRIES@[i], first@[i], second@[i]));
    }
    if s is Ok && 0 <= i < 10 {
        assert(acceptable(INSTANCE_ENTRIES@[i], instance_first@[i], instance_second@[i]));
    }
}

/// A call goes on under the name that it came in under.
pub proof fn law_call_keeps_its_name(core: Option<u64>, khr: Option<u64>, a: Option<u64>, b: Option<u64>)
    requires
        call_ensures(pick_variant, (core, khr, false), a),
        call_ensures(pick_variant, (core, khr, true), b),
    ensures
        a == core,
        b == khr,
{
}

proof fn lemma_function_from(list: Seq<&'static str>, from: int, name: Seq<u8>)
    requires
        0 <= from,
    ensures
        match function_from(list, from, name) {
            Some(i) => from <= i < list.len() && list[i].spec_bytes() == name && forall|j: int|
                from <= j < i ==> (#[trigger] list[j]).spec_bytes() != name,
            None => forall|j: int|
                from <= j < list.len() ==> (#[trigger] list[j]).spec_bytes() != name,
        },
    decreases list.len() - from,
{
    if from < list.len() && list[from].spec_bytes() != name {
        lemma_function_from(list, from + 1, name);
    }
}

/// A function that the layer provides is looked up as the layer's own, with or
/// without an instance, and for a device only with one. Any other name goes on
/// to the next layer, where the object is known, and leads nowhere where it is
/// not. Without a name there is nothing.
pub proof fn law_lookup_finds_the_layers_own(
    name: &[u8],
    instance_known: bool,
    r: Lookup,
    device_given: bool,
    device_known: bool,
    d: Lookup,
    none: Lookup,
    none_of_device: Lookup,
)
    requires
        call_ensures(get_instance_proc_addr, (Some(name), instance_known), r),
        call_ensures(get_device_proc_addr, (Some(name), device_given, device_known), d),
        call_ensures(get_instance_proc_addr, (None, instance_known), none),
        call_ensures(get_device_proc_addr, (None, device_given, device_known), none_of_device),
    ensures
        none is Nothing,
        none_of_device is Nothing,
        r matches Lookup::Own(i) ==> i < 13 && INSTANCE_FUNCTIONS@[i as int].spec_bytes() == name@,
        r !is Own ==> forall|j: int|
            0 <= j < 13 ==> (#[trigger] INSTANCE_FUNCTIONS@[j]).spec_bytes() != name@,
        r !is Own ==> (r is Forward <==> instance_known),
        d matches Lookup::Own(i) ==> device_given && i < 18
            && DEVICE_FUNCTIONS@[i as int].spec_bytes() == name@,
        !device_given ==> d is Nothing,
        device_given && d !is Own ==> forall|j: int|
            0 <= j < 18 ==> (#[trigger] DEVICE_FUNCTIONS@[j]).spec_bytes() != name@,
        device_given && d !is Own ==> (d is Forward <==> device_known),
{
    lemma_function_from(INSTANCE_FUNCTIONS@, 0, name@);
    lemma_function_from(DEVICE_FUNCTIONS@, 0, name@);
}

/// Whether a name is another one with the letters of who defines it behind, or
/// with other such letters.
pub open spec fn is_variant(second: Seq<char>, first: Seq<char>) -> bool {
    ||| second == first + "KHR"@
    ||| second == first + "EXT"@
    ||| first == second.take(second.len() - 3) + "KHR"@ && second.skip(second.len() - 3) == "EXT"@
}

proof fn lemma_variants()
    ensures
        is_variant("vkGetPhysicalDeviceProperties2KHR"@, "vkGetPhysicalDeviceProperties2"@),
        is_variant("vkGetPhysicalDeviceFeatures2KHR"@, "vkGetPhysicalDeviceFeatures2"@),
        is_variant("vkQueueSubmit2KHR"@, "vkQueueSubmit2"@),
        is_variant("vkCmdWriteTimestamp2KHR"@, "vkCmdWriteTimestamp2"@),
        is_variant("vkResetQueryPoolEXT"@, "vkResetQueryPool"@),
        is_variant("vkGetCalibratedTimestampsEXT"@, "vkGetCalibratedTimestampsKHR"@),
        is_variant("vkSignalSemaphoreKHR"@, "vkSignalSemaphore"@),
        is_variant("vkGetSemaphoreCounterValueKHR"@, "vkGetSemaphoreCounterValue"@),
{
    reveal_strlit("KHR");
    reveal_strlit("EXT");
    assert(is_variant("vkGetPhysicalDeviceProperties2KHR"@, "vkGetPhysicalDeviceProperties2"@)) by {
        reveal_strlit("vkGetPhysicalDeviceProperties2");
        reveal_strlit("vkGetPhysicalDeviceProperties2KHR");
        assert("vkGetPhysicalDeviceProperties2KHR"@ =~= "vkGetPhysicalDeviceProperties2"@ + "KHR"@);
    }
    assert(is_variant("vkGetPhysicalDeviceFeatures2KHR"@, "vkGetPhysicalDeviceFeatures2"@)) by {
        reveal_strlit("vkGetPhysicalDeviceFeatures2");
        reveal_strlit("vkGetPhysicalDeviceFeatures2KHR");
        assert("vkGetPhysicalDeviceFeatures2KHR"@ =~= "vkGetPhysicalDeviceFeatures2"@ + "KHR"@);
    }
    assert(is_variant("vkQueueSubmit2KHR"@, "vkQueueSubmit2"@)) by {
        reveal_strlit("vkQueueSubmit2");
        reveal_strlit("vkQueueSubmit2KHR");
        assert("vkQueueSubmit2KHR"@ =~= "vkQueueSubmit2"@ + "KHR"@);
    }
    assert(is_variant("vkCmdWriteTimestamp2KHR"@, "vkCmdWriteTimestamp2"@)) by {
        reveal_strlit("vkCmdWriteTimestamp2");
        reveal_strlit("vkCmdWriteTimestamp2KHR");
        assert("vkCmdWriteTimestamp2KHR"@ =~= "vkCmdWriteTimestamp2"@ + "KHR"@);
    }
    assert(is_variant("vkResetQueryPoolEXT"@, "vkResetQueryPool"@)) by {
        reveal_strlit("vkResetQueryPool");
        reveal_strlit("vkResetQueryPoolEXT");
        assert("vkResetQueryPoolEXT"@ =~= "vkResetQueryPool"@ + "EXT"@);
    }
    assert(is_variant("vkGetCalibratedTimestampsEXT"@, "vkGetCalibratedTimestampsKHR"@)) by {
        reveal_strlit("vkGetCalibratedTimestampsKHR");
        reveal_strlit("vkGetCalibratedTimestampsEXT");
        assert("vkGetCalibratedTimestampsKHR"@ =~= "vkGetCalibratedTimestampsEXT"@.take("vkGetCalibratedTimestampsEXT"@.len() - 3) + "KHR"@);
        assert("vkGetCalibratedTimestampsEXT"@.skip("vkGetCalibratedTimestampsEXT"@.len() - 3) =~= "EXT"@);
    }
    assert(is_variant("vkSignalSemaphoreKHR"@, "vkSignalSemaphore"@)) by {
        reveal_strlit("vkSignalSemaphore");
        reveal_strlit("vkSignalSemaphoreKHR");
        assert("vkSignalSemaphoreKHR"@ =~= "vkSignalSemaphore"@ + "KHR"@);
    }
    assert(is_variant("vkGetSemaphoreCounterValueKHR"@, "vkGetSemaphoreCounterValue"@)) by {
        reveal_strlit("vkGetSemaphoreCounterValue");
        reveal_strlit("vkGetSemaphoreCounterValueKHR");
        assert("vkGetSemaphoreCounterValueKHR"@ =~= "vkGetSemaphoreCounterValue"@ + "KHR"@);
    }
}

/// A second name is that of the same function under another letterhead, and
/// only what can be done without has one.
pub proof fn law_second_names_are_variants(i: int, j: int)
    requires
        0 <= i < 10,
        0 <= j < 30,
    ensures
        INSTANCE_ENTRIES@[i].1@.len() > 0 ==> is_variant(
            INSTANCE_ENTRIES@[i].1@,
            INSTANCE_ENTRIES@[i].0@,
        ) && !INSTANCE_ENTRIES@[i].2,
        DEVICE_ENTRIES@[j].1@.len() > 0 ==> is_variant(
            DEVICE_ENTRIES@[j].1@,
            DEVICE_ENTRIES@[j].0@,
        ) && !DEVICE_ENTRIES@[j].2,
{
    reveal_strlit("");
    lemma_variants();
}

} // verus!
