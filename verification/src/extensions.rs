//! Which extensions the layer shows, watches for and enables, and how it
//! presents a device.

use vstd::prelude::*;
use vstd::slice::slice_subrange;
use vstd::string::*;
use crate::amd_anti_lag;
use crate::config;
use crate::config::SpoofProfile;
use crate::physical_device;
use crate::physical_device::{
    ext_name,
    has_name,
    same_bytes,
    to_vec,
    OPTIONAL_EXTENSIONS,
    OPTIONAL_PRESENT_ID,
    OPTIONAL_PRESENT_WAIT,
    REQUIRED_EXTENSIONS,
};
use crate::vk;

verus! {

pub const NV_LOW_LATENCY2_NAME: &'static str = "VK_NV_low_latency2";

pub const NV_LOW_LATENCY2_SPEC_VERSION: u32 = 2;

/// The size of a name field.
pub const NAME_SIZE: usize = 256;

/// The extension that the layer shows, and by which it sees that an
/// application wants it.
pub open spec fn watched(expose_reflex: bool) -> (&'static str, u32) {
    if expose_reflex {
        (NV_LOW_LATENCY2_NAME, NV_LOW_LATENCY2_SPEC_VERSION)
    } else {
        (amd_anti_lag::AMD_ANTI_LAG_NAME, amd_anti_lag::AMD_ANTI_LAG_SPEC_VERSION)
    }
}

pub fn watched_extension(expose_reflex: bool) -> (r: (&'static str, u32))
    ensures
        r == watched(expose_reflex),
{
    if expose_reflex {
        (NV_LOW_LATENCY2_NAME, NV_LOW_LATENCY2_SPEC_VERSION)
    } else {
        (amd_anti_lag::AMD_ANTI_LAG_NAME, amd_anti_lag::AMD_ANTI_LAG_SPEC_VERSION)
    }
}

/// What a new device enables.
#[derive(Debug)]
pub struct DeviceExtensions {
    pub layer_enabled: bool,
    pub names: Vec<Vec<u8>>,
    pub enable_present_id: bool,
    pub enable_present_wait: bool,
}

/// The required extensions from `i` on that a list lacks.
pub open spec fn missing_required(enabled: Seq<Seq<u8>>, i: int) -> Seq<Seq<u8>>
    decreases 3 - i,
{
    if i < 0 || i >= 3 {
        Seq::empty()
    } else if enabled.contains(REQUIRED_EXTENSIONS@[i].spec_bytes()) {
        missing_required(enabled, i + 1)
    } else {
        seq![REQUIRED_EXTENSIONS@[i].spec_bytes()] + missing_required(enabled, i + 1)
    }
}

/// The supported optional extensions, by their places, from `i` on, that a
/// list lacks.
pub open spec fn missing_optional(
    enabled: Seq<Seq<u8>>,
    optionals: Seq<usize>,
    i: int,
) -> Seq<Seq<u8>>
    decreases optionals.len() - i,
{
    if i < 0 || i >= optionals.len() {
        Seq::empty()
    } else if enabled.contains(OPTIONAL_EXTENSIONS@[optionals[i] as int].spec_bytes()) {
        missing_optional(enabled, optionals, i + 1)
    } else {
        seq![OPTIONAL_EXTENSIONS@[optionals[i] as int].spec_bytes()] + missing_optional(
            enabled,
            optionals,
            i + 1,
        )
    }
}

/// Whether an application wants the layer on a device.
pub open spec fn wants_layer(enabled: Seq<Seq<u8>>, expose_reflex: bool) -> bool {
    enabled.contains(watched(expose_reflex).0.spec_bytes())
}

/// What a new device enables: what the application asked for, and, where the
/// layer is wanted, what that needs and what helps it.
pub open spec fn enabled_names(
    enabled: Seq<Seq<u8>>,
    expose_reflex: bool,
    optionals: Seq<usize>,
) -> Seq<Seq<u8>> {
    if wants_layer(enabled, expose_reflex) {
        enabled + missing_required(enabled, 0) + missing_optional(enabled, optionals, 0)
    } else {
        enabled
    }
}

/// Decides on the extensions of a new device. The layer cannot be on where
/// the device lacks what it needs.
pub fn plan_extensions(
    enabled: &Vec<Vec<u8>>,
    expose_reflex: bool,
    supports_required: bool,
    optionals: &Vec<usize>,
) -> (r: Result<DeviceExtensions, i32>)
    requires
        forall|i: int| 0 <= i < optionals@.len() ==> #[trigger] optionals@[i] < 3,
    ensures
        match r {
            Err(e) => {
                &&& e == vk::ERROR_INITIALIZATION_FAILED
                &&& wants_layer(physical_device::names(enabled@), expose_reflex)
                &&& !supports_required
            },
            Ok(d) => {
                let on = wants_layer(physical_device::names(enabled@), expose_reflex);
                &&& on ==> supports_required
                &&& d.layer_enabled == on
                &&& physical_device::names(d.names@) == enabled_names(
                    physical_device::names(enabled@),
                    expose_reflex,
                    optionals@,
                )
                &&& d.enable_present_id == (on && optionals@.contains(OPTIONAL_PRESENT_ID))
                &&& d.enable_present_wait == (on && optionals@.contains(OPTIONAL_PRESENT_WAIT))
            },
        },
{
    let ghost view = physical_device::names(enabled@);
    let (watched_name, _) = watched_extension(expose_reflex);
    let layer_enabled = has_name(enabled, watched_name.as_bytes());
    if layer_enabled && !supports_required {
        return Err(vk::ERROR_INITIALIZATION_FAILED);
    }
    let mut out: Vec<Vec<u8>> = clone_names(enabled);
    let mut enable_present_id = false;
    let mut enable_present_wait = false;
    if layer_enabled {
        let mut i: usize = 0;
        proof {
            let all = missing_required(view, 0);
            assert(physical_device::names(out@) + all =~= view + all);
        }
        while i < 3
            invariant
                i <= 3,
                view == physical_device::names(enabled@),
                physical_device::names(out@) + missing_required(view, i as int) == view
                    + missing_required(view, 0),
            decreases 3 - i,
        {
            let ghost before = out@;
            let name = REQUIRED_EXTENSIONS[i].as_bytes();
            if !has_name(enabled, name) {
                out.push(to_vec(name));
                proof {
                    let rest = missing_required(view, i + 1);
                    assert(physical_device::names(out@) =~= physical_device::names(before).push(
                        name@,
                    ));
                    assert(physical_device::names(before) + (seq![name@] + rest)
                        =~= physical_device::names(out@) + rest);
                }
            }
            i += 1;
        }
        let ghost base = view + missing_required(view, 0);
        proof {
            assert(physical_device::names(out@) + missing_required(view, 3)
                =~= physical_device::names(out@));
            let all = missing_optional(view, optionals@, 0);
            assert(physical_device::names(out@) + all =~= base + all);
        }
        let mut k: usize = 0;
        while k < optionals.len()
            invariant
                k <= optionals@.len(),
                view == physical_device::names(enabled@),
                forall|i: int| 0 <= i < optionals@.len() ==> #[trigger] optionals@[i] < 3,
                physical_device::names(out@) + missing_optional(view, optionals@, k as int) == base
                    + missing_optional(view, optionals@, 0),
                enable_present_id == optionals@.take(k as int).contains(OPTIONAL_PRESENT_ID),
                enable_present_wait == optionals@.take(k as int).contains(OPTIONAL_PRESENT_WAIT),
            decreases optionals@.len() - k,
        {
            let ghost before = out@;
            let place: usize = optionals[k];
            let name = OPTIONAL_EXTENSIONS[place].as_bytes();
            if !has_name(enabled, name) {
                out.push(to_vec(name));
                proof {
                    let rest = missing_optional(view, optionals@, k + 1);
                    assert(physical_device::names(out@) =~= physical_device::names(before).push(
                        name@,
                    ));
                    assert(physical_device::names(before) + (seq![name@] + rest)
                        =~= physical_device::names(out@) + rest);
                }
            }
            if place == OPTIONAL_PRESENT_ID {
                enable_present_id = true;
            }
            if place == OPTIONAL_PRESENT_WAIT {
                enable_present_wait = true;
            }
            proof {
                lemma_take_contains(optionals@, k as int, OPTIONAL_PRESENT_ID);
                lemma_take_contains(optionals@, k as int, OPTIONAL_PRESENT_WAIT);
            }
            k += 1;
        }
        proof {
            assert(optionals@.take(k as int) =~= optionals@);
            assert(physical_device::names(out@) + missing_optional(view, optionals@, k as int)
                =~= physical_device::names(out@));
        }
    }
    Ok(DeviceExtensions { layer_enabled, names: out, enable_present_id, enable_present_wait })
}

proof fn lemma_take_contains(s: Seq<usize>, k: int, x: usize)
    requires
        0 <= k < s.len(),
    ensures
        s.take(k + 1).contains(x) == (s.take(k).contains(x) || s[k] == x),
{
    let longer = s.take(k + 1);
    let shorter = s.take(k);
    if longer.contains(x) {
        let i = choose|i: int| 0 <= i < longer.len() && longer[i] == x;
        if i < k {
            assert(shorter[i] == x);
        }
    }
    if shorter.contains(x) {
        let i = choose|i: int| 0 <= i < shorter.len() && shorter[i] == x;
        assert(longer[i] == x);
    }
    if s[k] == x {
        assert(longer[k] == x);
    }
}

fn clone_names(list: &Vec<Vec<u8>>) -> (r: Vec<Vec<u8>>)
    ensures
        physical_device::names(r@) == physical_device::names(list@),
{
    let mut out: Vec<Vec<u8>> = Vec::new();
    let mut i: usize = 0;
    while i < list.len()
        invariant
            i <= list@.len(),
            out@.len() == i,
            forall|j: int| 0 <= j < i ==> #[trigger] out@[j]@ == list@[j]@,
        decreases list@.len() - i,
    {
        out.push(to_vec(list[i].as_slice()));
        i += 1;
    }
    proof {
        assert(physical_device::names(out@) =~= physical_device::names(list@));
    }
    out
}

/// A name field with an extension's version.
#[derive(Debug)]
pub struct ExtensionProperties {
    pub extension_name: Vec<u8>,
    pub spec_version: u32,
}

/// The part of a text that fits into a name field with its zero.
pub open spec fn fitting(bytes: Seq<u8>) -> Seq<u8> {
    if bytes.len() < NAME_SIZE {
        bytes
    } else {
        bytes.take(NAME_SIZE - 1)
    }
}

/// A name field that holds a text, filled up with zeros.
pub open spec fn padded(bytes: Seq<u8>) -> Seq<u8> {
    fitting(bytes) + Seq::new((NAME_SIZE - fitting(bytes).len()) as nat, |i: int| 0u8)
}

/// The entry of an extension in a driver's list.
pub fn make_ext_prop(name: &str, spec_version: u32) -> (r: ExtensionProperties)
    ensures
        r.extension_name@ == padded(name.spec_bytes()),
        r.spec_version == spec_version,
{
    let bytes = name.as_bytes();
    let len: usize = if bytes.len() < NAME_SIZE {
        bytes.len()
    } else {
        NAME_SIZE - 1
    };
    let mut out: Vec<u8> = to_vec(slice_subrange(bytes, 0, len));
    proof {
        assert(out@ =~= fitting(bytes@));
    }
    while out.len() < NAME_SIZE
        invariant
            len <= out@.len() <= NAME_SIZE,
            len == fitting(bytes@).len(),
            len < NAME_SIZE,
            out@ == padded(bytes@).take(out@.len() as int),
        decreases NAME_SIZE - out@.len(),
    {
        let ghost n = out@.len() as int;
        out.push(0);
        proof {
            assert(padded(bytes@).take(n + 1) =~= padded(bytes@).take(n).push(0u8));
        }
    }
    proof {
        assert(padded(bytes@).take(NAME_SIZE as int) =~= padded(bytes@));
    }
    ExtensionProperties { extension_name: out, spec_version }
}

/// Whether an entry is that of an extension.
pub fn ext_name_eq(raw: &[u8], name: &str) -> (r: bool)
    ensures
        r == (physical_device::name_of(raw@) == name.spec_bytes()),
{
    same_bytes(ext_name(raw), name.as_bytes())
}

/// How a question for the extensions of a device is answered.
#[derive(Debug, Clone, Copy, PartialEq, Eq, Structural)]
pub enum Enumeration {
    /// It is about another layer: the driver answers.
    PassThrough,
    /// It is about this layer: its one extension.
    Own,
    /// It is about the device: the driver's list and this layer's extension.
    Merge,
}

/// Whom a question for extensions is for, by the layer it names.
pub fn enumeration_for(layer_name: Option<&[u8]>) -> (r: Enumeration)
    ensures
        r == (match layer_name {
            None => Enumeration::Merge,
            Some(n) => if n@ == config::LAYER_NAME.spec_bytes() {
                Enumeration::Own
            } else {
                Enumeration::PassThrough
            },
        }),
{
    match layer_name {
        None => Enumeration::Merge,
        Some(n) => {
            if same_bytes(n, config::LAYER_NAME.as_bytes()) {
                Enumeration::Own
            } else {
                Enumeration::PassThrough
            }
        },
    }
}

/// An answer to a question for a list: how many entries of the driver's list
/// are copied, whether this layer's own comes behind them, the count to
/// report, where one is, and the result.
#[derive(Debug, Clone, Copy, PartialEq, Eq, Structural)]
pub struct ListAnswer {
    pub copied: u32,
    pub own: bool,
    pub count: Option<u32>,
    pub result: i32,
}

/// The answer about this layer's own list. Without room the question is how
/// long it is.
pub open spec fn own_answer(room: Option<u32>) -> ListAnswer {
    match room {
        None => ListAnswer { copied: 0, own: false, count: Some(1), result: vk::SUCCESS },
        Some(n) => if n == 0 {
            ListAnswer { copied: 0, own: false, count: None, result: vk::INCOMPLETE }
        } else {
            ListAnswer { copied: 0, own: true, count: Some(1), result: vk::SUCCESS }
        },
    }
}

pub fn answer_own(room: Option<u32>) -> (r: ListAnswer)
    ensures
        r == own_answer(room),
{
    match room {
        None => ListAnswer { copied: 0, own: false, count: Some(1), result: vk::SUCCESS },
        Some(n) => {
            if n == 0 {
                ListAnswer { copied: 0, own: false, count: None, result: vk::INCOMPLETE }
            } else {
                ListAnswer { copied: 0, own: true, count: Some(1), result: vk::SUCCESS }
            }
        },
    }
}

/// Whether a driver's list has an extension already.
pub open spec fn lists(raw: Seq<Vec<u8>>, name: Seq<u8>) -> bool {
    exists|i: int| 0 <= i < raw.len() && physical_device::name_of(#[trigger] raw[i]@) == name
}

/// How long the merged list is: this layer's extension comes in only where
/// the driver does not have it.
pub open spec fn merged_total(count: int, already: bool) -> int {
    if already {
        count
    } else {
        count + 1
    }
}

/// The answer about the merged list.
pub open spec fn merged_answer(count: int, already: bool, room: Option<u32>) -> ListAnswer {
    let total = merged_total(count, already);
    match room {
        None => ListAnswer { copied: 0, own: false, count: Some(total as u32), result: vk::SUCCESS },
        Some(n) => {
            let copied = if n < count {
                n as int
            } else {
                count
            };
            let own = !already && copied < n;
            let written = if own {
                copied + 1
            } else {
                copied
            };
            ListAnswer {
                copied: copied as u32,
                own,
                count: Some(written as u32),
                result: if written < total {
                    vk::INCOMPLETE
                } else {
                    vk::SUCCESS
                },
            }
        },
    }
}

/// Answers a question for the extensions of a device: the driver's list, and
/// this layer's extension behind it.
pub fn answer_merged(raw: &Vec<Vec<u8>>, expose_reflex: bool, room: Option<u32>) -> (r: ListAnswer)
    requires
        raw@.len() < u32::MAX,
    ensures
        r == answer_about(raw@, watched(expose_reflex).0.spec_bytes(), room),
{
    let (name, _) = watched_extension(expose_reflex);
    let already = lists_name(raw, name);
    let count: u32 = raw.len() as u32;
    let total: u32 = if already {
        count
    } else {
        count + 1
    };
    match room {
        None => ListAnswer { copied: 0, own: false, count: Some(total), result: vk::SUCCESS },
        Some(n) => {
            let copied: u32 = if n < count {
                n
            } else {
                count
            };
            let own = !already && copied < n;
            let written: u32 = if own {
                copied + 1
            } else {
                copied
            };
            let result: i32 = if written < total {
                vk::INCOMPLETE
            } else {
                vk::SUCCESS
            };
            ListAnswer { copied, own, count: Some(written), result }
        },
    }
}

fn lists_name(raw: &Vec<Vec<u8>>, name: &str) -> (r: bool)
    ensures
        r == lists(raw@, name.spec_bytes()),
{
    let mut i: usize = 0;
    while i < raw.len()
        invariant
            i <= raw@.len(),
            forall|j: int|
                0 <= j < i ==> physical_device::name_of(#[trigger] raw@[j]@) != name.spec_bytes(),
        decreases raw@.len() - i,
    {
        if ext_name_eq(raw[i].as_slice(), name) {
            return true;
        }
        i += 1;
    }
    false
}

/// The names of a list of name fields.
pub open spec fn listed_names(raw: Seq<Vec<u8>>) -> Seq<Seq<u8>> {
    raw.map_values(|field: Vec<u8>| physical_device::name_of(field@))
}

/// The list that an application is to see: the driver's, with this layer's
/// extension behind it where the driver does not have it.
pub open spec fn merged_names(raw: Seq<Vec<u8>>, name: Seq<u8>) -> Seq<Seq<u8>> {
    if lists(raw, name) {
        listed_names(raw)
    } else {
        listed_names(raw).push(name)
    }
}

/// The names that an answer hands over.
pub open spec fn handed_over(raw: Seq<Vec<u8>>, name: Seq<u8>, a: ListAnswer) -> Seq<Seq<u8>> {
    let copied = listed_names(raw).take(a.copied as int);
    if a.own {
        copied.push(name)
    } else {
        copied
    }
}

/// The answer that [`answer_merged`] gives.
pub open spec fn answer_about(raw: Seq<Vec<u8>>, name: Seq<u8>, room: Option<u32>) -> ListAnswer {
    merged_answer(raw.len() as int, lists(raw, name), room)
}

/// The list names this layer's extension: once, and last, where the driver
/// does not have it.
pub proof fn law_own_extension_is_listed(raw: Seq<Vec<u8>>, name: Seq<u8>)
    ensures
        merged_names(raw, name).contains(name),
        !lists(raw, name) ==> {
            let all = merged_names(raw, name);
            &&& all.last() == name
            &&& forall|i: int| 0 <= i < all.len() - 1 ==> #[trigger] all[i] != name
        },
{
    let all = merged_names(raw, name);
    if lists(raw, name) {
        let i = choose|i: int| 0 <= i < raw.len() && physical_device::name_of(#[trigger] raw[i]@)
            == name;
        assert(all[i] == name);
    } else {
        assert(all[all.len() - 1] == name);
        assert forall|i: int| 0 <= i < all.len() - 1 implies #[trigger] all[i] != name by {
            assert(all[i] == physical_device::name_of(raw[i]@));
        }
    }
}

/// Whatever the room, the application gets the start of the list, as much of
/// it as fits, is told how much that is, and whether anything is missing.
pub proof fn law_room_is_kept(raw: Seq<Vec<u8>>, name: Seq<u8>, room: u32)
    requires
        raw.len() < u32::MAX,
    ensures
        ({
            let all = merged_names(raw, name);
            let a = answer_about(raw, name, Some(room));
            let n = if room < all.len() {
                room as int
            } else {
                all.len() as int
            };
            &&& handed_over(raw, name, a) == all.take(n)
            &&& a.count == Some(n as u32)
            &&& a.result == (if n < all.len() {
                vk::INCOMPLETE
            } else {
                vk::SUCCESS
            })
        }),
{
    let all = merged_names(raw, name);
    let a = answer_about(raw, name, Some(room));
    assert(handed_over(raw, name, a) =~= all.take(a.count->0 as int));
}

/// Asking for the length and then for that many entries gives the whole list.
pub proof fn law_two_calls_give_all(raw: Seq<Vec<u8>>, name: Seq<u8>)
    requires
        raw.len() < u32::MAX,
    ensures
        ({
            let first = answer_about(raw, name, None);
            let second = answer_about(raw, name, first.count);
            &&& first.result == vk::SUCCESS
            &&& first.count == Some(merged_names(raw, name).len() as u32)
            &&& second.result == vk::SUCCESS
            &&& second.count == first.count
            &&& handed_over(raw, name, second) == merged_names(raw, name)
        }),
{
    let all = merged_names(raw, name);
    law_room_is_kept(raw, name, all.len() as u32);
    assert(all.take(all.len() as int) =~= all);
}

/// A device as an application sees it.
#[derive(Debug)]
pub struct DeviceIdentity {
    pub vendor_id: u32,
    pub device_id: u32,
    pub device_name: Vec<u8>,
}

/// Presents a device as the NVIDIA card of a profile. What stands in the name
/// field behind the new name's zero stays.
pub fn apply_nvidia_spoof_v1(profile: &SpoofProfile, props: &mut DeviceIdentity)
    requires
        old(props).device_name@.len() == NAME_SIZE,
    ensures
        final(props).vendor_id == config::NVIDIA_VENDOR_ID,
        final(props).device_id == profile.device_id,
        ({
            let name = fitting(profile.device_name.spec_bytes());
            final(props).device_name@ == name + seq![0u8] + old(props).device_name@.skip(
                name.len() as int + 1,
            )
        }),
{
    props.vendor_id = config::NVIDIA_VENDOR_ID;
    props.device_id = profile.device_id;
    let bytes = profile.device_name.as_bytes();
    let len: usize = if bytes.len() < NAME_SIZE {
        bytes.len()
    } else {
        NAME_SIZE - 1
    };
    let ghost old_name = old(props).device_name@;
    let mut i: usize = 0;
    while i < len
        invariant
            i <= len,
            len <= bytes@.len(),
            len < NAME_SIZE,
            old_name.len() == NAME_SIZE,
            props.vendor_id == config::NVIDIA_VENDOR_ID,
            props.device_id == profile.device_id,
            props.device_name@ == bytes@.take(i as int) + old_name.skip(i as int),
        decreases len - i,
    {
        let ghost before = props.device_name@;
        props.device_name.set(i, bytes[i]);
        proof {
            assert(props.device_name@ =~= bytes@.take(i + 1) + old_name.skip(i + 1));
        }
        i += 1;
    }
    props.device_name.set(len, 0);
    proof {
        let name = fitting(bytes@);
        assert(name =~= bytes@.take(len as int));
        assert(props.device_name@ =~= name + seq![0u8] + old_name.skip(len + 1));
    }
}

/// A spoofed device reads back as the name of its profile, where the name
/// fits and holds no zero.
pub proof fn law_spoofed_name_reads_back(name: Seq<u8>, rest: Seq<u8>)
    requires
        forall|i: int| 0 <= i < name.len() ==> name[i] != 0,
    ensures
        physical_device::name_of(name + seq![0u8] + rest) == name,
{
    let field = name + seq![0u8] + rest;
    lemma_end(field, name, 0);
    assert(field.take(name.len() as int) =~= name);
}

proof fn lemma_end(field: Seq<u8>, name: Seq<u8>, i: int)
    requires
        0 <= i <= name.len() < field.len(),
        forall|j: int| 0 <= j < name.len() ==> field[j] == name[j] && name[j] != 0,
        field[name.len() as int] == 0,
    ensures
        physical_device::name_end(field, i) == name.len(),
    decreases name.len() - i,
{
    if i < name.len() {
        lemma_end(field, name, i + 1);
    }
}

/// The present modes that the layer can pace: immediate, mailbox and FIFO.
pub const PACED_PRESENT_MODES: [i32; 3] = [0, 1, 2];

/// How many of the paced modes are handed over: all, where the question is
/// how many there are, and else those that there is room for.
pub fn present_mode_count(room: Option<u32>) -> (r: u32)
    ensures
        r == (match room {
            None => 3,
            Some(n) => if n < 3 {
                n
            } else {
                3
            },
        }),
{
    match room {
        None => 3,
        Some(n) => {
            if n < 3 {
                n
            } else {
                3
            }
        },
    }
}

/// What the feature structure of the one extension says; the other shows
/// itself elsewhere and leaves it as it is.
pub fn anti_lag_feature(expose_reflex: bool, supports_required: bool) -> (r: Option<bool>)
    ensures
        r == (if expose_reflex {
            None
        } else {
            Some(supports_required)
        }),
{
    if expose_reflex {
        None
    } else {
        Some(supports_required)
    }
}

/// The layer shows the one extension or the other, by their names, and not
/// both.
pub proof fn law_one_extension_is_shown(a: (&'static str, u32), b: (&'static str, u32))
    requires
        call_ensures(watched_extension, (true,), a),
        call_ensures(watched_extension, (false,), b),
    ensures
        a.0@ == "VK_NV_low_latency2"@,
        a.1 == 2,
        b.0@ == "VK_AMD_anti_lag"@,
        b.1 == 1,
{
}

proof fn lemma_missing_required(enabled: Seq<Seq<u8>>, from: int, name: Seq<u8>)
    requires
        0 <= from,
    ensures
        missing_required(enabled, from).contains(name) <==> !enabled.contains(name)
            && exists|k: int|
            from <= k < 3 && (#[trigger] REQUIRED_EXTENSIONS@[k]).spec_bytes() == name,
    decreases 3 - from,
{
    if from < 3 {
        let rest = missing_required(enabled, from + 1);
        lemma_missing_required(enabled, from + 1, name);
        let here = REQUIRED_EXTENSIONS@[from].spec_bytes();
        if !enabled.contains(here) {
            lemma_contains_front(here, rest, name);
        }
        if !enabled.contains(name) && exists|k: int|
            from <= k < 3 && (#[trigger] REQUIRED_EXTENSIONS@[k]).spec_bytes() == name {
            let k = choose|k: int|
                from <= k < 3 && (#[trigger] REQUIRED_EXTENSIONS@[k]).spec_bytes() == name;
            if k > from {
                assert(from + 1 <= k < 3 && REQUIRED_EXTENSIONS@[k].spec_bytes() == name);
            }
        }
    }
}

proof fn lemma_missing_optional(
    enabled: Seq<Seq<u8>>,
    optionals: Seq<usize>,
    from: int,
    name: Seq<u8>,
)
    requires
        0 <= from,
    ensures
        missing_optional(enabled, optionals, from).contains(name) <==> !enabled.contains(name)
            && exists|k: int|
            from <= k < optionals.len() && OPTIONAL_EXTENSIONS@[(
            #[trigger] optionals[k]) as int].spec_bytes() == name,
    decreases optionals.len() - from,
{
    if from < optionals.len() {
        let rest = missing_optional(enabled, optionals, from + 1);
        lemma_missing_optional(enabled, optionals, from + 1, name);
        let here = OPTIONAL_EXTENSIONS@[optionals[from] as int].spec_bytes();
        if !enabled.contains(here) {
            lemma_contains_front(here, rest, name);
        }
        if !enabled.contains(name) && exists|k: int|
            from <= k < optionals.len() && OPTIONAL_EXTENSIONS@[(
            #[trigger] optionals[k]) as int].spec_bytes() == name {
            let k = choose|k: int|
                from <= k < optionals.len() && OPTIONAL_EXTENSIONS@[(
                #[trigger] optionals[k]) as int].spec_bytes() == name;
            if k > from {
                assert(from + 1 <= k && OPTIONAL_EXTENSIONS@[optionals[k] as int].spec_bytes()
                    == name);
            }
        }
    }
}

proof fn lemma_contains_front(here: Seq<u8>, rest: Seq<Seq<u8>>, name: Seq<u8>)
    ensures
        (seq![here] + rest).contains(name) <==> here == name || rest.contains(name),
{
    let all = seq![here] + rest;
    if rest.contains(name) {
        let i = choose|i: int| 0 <= i < rest.len() && rest[i] == name;
        assert(all[i + 1] == name);
    }
    if here == name {
        assert(all[0] == name);
    }
    if all.contains(name) {
        let i = choose|i: int| 0 <= i < all.len() && all[i] == name;
        if i > 0 {
            assert(rest[i - 1] == name);
        }
    }
}

proof fn lemma_contains_join(a: Seq<Seq<u8>>, b: Seq<Seq<u8>>, name: Seq<u8>)
    ensures
        (a + b).contains(name) <==> a.contains(name) || b.contains(name),
{
    let all = a + b;
    if a.contains(name) {
        let i = choose|i: int| 0 <= i < a.len() && a[i] == name;
        assert(all[i] == name);
    }
    if b.contains(name) {
        let i = choose|i: int| 0 <= i < b.len() && b[i] == name;
        assert(all[a.len() + i] == name);
    }
    if all.contains(name) {
        let i = choose|i: int| 0 <= i < all.len() && all[i] == name;
        if i < a.len() {
            assert(a[i] == name);
        } else {
            assert(b[i - a.len()] == name);
        }
    }
}

/// A new device enables everything that the application asked for, first and
/// as it is. The layer is on where its extension is among that, and only then
/// is anything added: what is required, and what is optional and supported, as
/// far as it was not asked for. Where the device lacks what is required, a
/// device with the layer fails (-3).
pub proof fn law_device_enables_what_is_needed(
    enabled: &Vec<Vec<u8>>,
    expose_reflex: bool,
    supports_required: bool,
    optionals: &Vec<usize>,
    r: Result<DeviceExtensions, i32>,
    shown: (&'static str, u32),
    name: Seq<u8>,
)
    requires
        forall|i: int| 0 <= i < optionals@.len() ==> #[trigger] optionals@[i] < 3,
        call_ensures(plan_extensions, (enabled, expose_reflex, supports_required, optionals), r),
        call_ensures(watched_extension, (expose_reflex,), shown),
    ensures
        ({
            let asked = physical_device::names(enabled@);
            let on = asked.contains(shown.0.spec_bytes());
            &&& r is Err <==> on && !supports_required
            &&& r matches Err(e) ==> e == -3
            &&& r matches Ok(d) ==> {
                let all = physical_device::names(d.names@);
                &&& d.layer_enabled == on
                &&& asked.is_prefix_of(all)
                &&& !on ==> all == asked
                &&& all.len() <= asked.len() + 3 + optionals@.len()
                &&& on ==> (all.contains(name) <==> asked.contains(name) || (exists|k: int|
                    0 <= k < 3 && (#[trigger] REQUIRED_EXTENSIONS@[k]).spec_bytes() == name) || (
                exists|k: int|
                    0 <= k < optionals@.len() && OPTIONAL_EXTENSIONS@[(
                    #[trigger] optionals@[k]) as int].spec_bytes() == name))
                &&& d.enable_present_id <==> on && optionals@.contains(0)
                &&& d.enable_present_wait <==> on && optionals@.contains(1)
            }
        }),
{
    let asked = physical_device::names(enabled@);
    let req = missing_required(asked, 0);
    let opt = missing_optional(asked, optionals@, 0);
    lemma_missing_required(asked, 0, name);
    lemma_missing_optional(asked, optionals@, 0, name);
    lemma_few_missing(asked, optionals@, 0);
    reveal_with_fuel(missing_required, 4);
    lemma_contains_join(asked, req, name);
    lemma_contains_join(asked + req, opt, name);
    if let Ok(d) = r {
        let all = physical_device::names(d.names@);
        assert(asked =~= all.take(asked.len() as int));
    }
}

/// A question is about this layer, another one, or the device, by the name it
/// gives.
pub proof fn law_questions_are_told_apart(layer_name: Option<&[u8]>, r: Enumeration)
    requires
        call_ensures(enumeration_for, (layer_name,), r),
    ensures
        r is Merge <==> layer_name is None,
        r is Own <==> (layer_name matches Some(n) && n@
            == "VK_LAYER_VKPACE_reduce_latency".spec_bytes()),
{
}

/// The layer's own list has one entry. Asked for its length it says so; with
/// room it gives the entry, and without it says that something is missing (5).
pub proof fn law_own_list_has_one_entry(room: Option<u32>, r: ListAnswer)
    requires
        call_ensures(answer_own, (room,), r),
    ensures
        r.copied == 0,
        r.own <==> (room matches Some(n) && n > 0),
        room == Some(0u32) ==> r.result == 5 && r.count is None,
        room != Some(0u32) ==> r.result == 0 && r.count == Some(1u32),
{
}

/// A question about a device is answered with the start of one list: the
/// driver's, and behind it the extension that the layer shows, unless the
/// driver has it. As much is given as there is room for, the count says how
/// much, and the result whether that is all (0) or not (5). Without room only
/// the length is given.
pub proof fn law_device_list_is_merged(
    raw: &Vec<Vec<u8>>,
    expose_reflex: bool,
    room: Option<u32>,
    r: ListAnswer,
    shown: (&'static str, u32),
)
    requires
        raw@.len() < u32::MAX,
        call_ensures(answer_merged, (raw, expose_reflex, room), r),
        call_ensures(watched_extension, (expose_reflex,), shown),
    ensures
        ({
            let name = shown.0.spec_bytes();
            let known = exists|i: int|
                0 <= i < raw@.len() && physical_device::name_of(#[trigger] raw@[i]@) == name;
            let total: int = if known {
                raw@.len() as int
            } else {
                raw@.len() as int + 1
            };
            &&& room is None ==> r.copied == 0 && !r.own && r.count == Some(total as u32)
                && r.result == 0
            &&& room matches Some(n) ==> {
                let given = r.copied + (if r.own {
                    1int
                } else {
                    0
                });
                &&& given <= n
                &&& r.copied <= raw@.len()
                &&& r.own ==> !known && r.copied == raw@.len()
                &&& given < total ==> given == n
                &&& r.count == Some(given as u32)
                &&& r.result == (if given < total {
                    5i32
                } else {
                    0i32
                })
            }
        }),
{
}

/// The entry of an extension reads back as its name, where the name fits and
/// holds no zero, in a field of 256 bytes, and has its version.
pub proof fn law_entry_reads_back(name: &str, spec_version: u32, r: ExtensionProperties)
    requires
        call_ensures(make_ext_prop, (name, spec_version), r),
        name.spec_bytes().len() < 256,
        forall|i: int| 0 <= i < name.spec_bytes().len() ==> name.spec_bytes()[i] != 0,
    ensures
        r.extension_name@.len() == 256,
        physical_device::name_of(r.extension_name@) == name.spec_bytes(),
        r.spec_version == spec_version,
{
    let bytes = name.spec_bytes();
    let rest = Seq::new((255 - bytes.len()) as nat, |i: int| 0u8);
    assert(r.extension_name@ =~= bytes + seq![0u8] + rest);
    law_spoofed_name_reads_back(bytes, rest);
}

/// A name that is too long for its field is cut to its first 255 bytes, and
/// the field still ends with a zero.
pub proof fn law_long_names_are_cut(name: &str, spec_version: u32, r: ExtensionProperties, i: int)
    requires
        call_ensures(make_ext_prop, (name, spec_version), r),
        name.spec_bytes().len() >= 256,
        0 <= i < 255,
    ensures
        r.extension_name@.len() == 256,
        r.extension_name@[i] == name.spec_bytes()[i],
        r.extension_name@[255] == 0,
{
}

/// An entry is that of an extension where the names are the same.
pub proof fn law_entries_are_told_apart(raw: &[u8], name: &str, r: bool)
    requires
        call_ensures(ext_name_eq, (raw, name), r),
        name.spec_bytes().len() < raw@.len(),
        forall|i: int| 0 <= i < name.spec_bytes().len() ==> name.spec_bytes()[i] != 0,
    ensures
        r <==> raw@.take(name.spec_bytes().len() as int) == name.spec_bytes()
            && raw@[name.spec_bytes().len() as int]
            == 0,
{
    let bytes = name.spec_bytes();
    let n = bytes.len() as int;
    physical_device::law_name_stops_at_zero(raw@);
    if r {
        assert(physical_device::name_end(raw@, 0) == n);
    }
    if raw@.take(n) == bytes && raw@[n] == 0 {
        assert forall|j: int| 0 <= j < n implies raw@[j] != 0 by {
            assert(raw@[j] == raw@.take(n)[j]);
        }
        lemma_end(raw@, bytes, 0);
    }
}

/// A device shows itself as the card of a profile: NVIDIA's vendor number
/// (0x10DE), the profile's device number, and a name that reads back as the
/// profile's. What stands behind the name's zero stays.
pub proof fn law_device_shows_the_profile(profile: &SpoofProfile, props: &mut DeviceIdentity, i: int)
    requires
        old(props).device_name@.len() == 256,
        call_ensures(apply_nvidia_spoof_v1, (profile, props), ()),
        profile.device_name.spec_bytes().len() < 256,
        forall|i: int|
            0 <= i < profile.device_name.spec_bytes().len() ==> profile.device_name.spec_bytes()[i]
                != 0,
    ensures
        final(props).vendor_id == 0x10DE,
        final(props).device_id == profile.device_id,
        final(props).device_name@.len() == 256,
        physical_device::name_of(final(props).device_name@) == profile.device_name.spec_bytes(),
        profile.device_name.spec_bytes().len() < i < 256
            ==> final(props).device_name@[i] == old(props).device_name@[i],
{
    let bytes = profile.device_name.spec_bytes();
    let rest = old(props).device_name@.skip(bytes.len() as int + 1);
    law_spoofed_name_reads_back(bytes, rest);
}

/// Three modes can be paced, and as many are given as there is room for.
pub proof fn law_paced_modes_fit_the_room(room: Option<u32>, r: u32)
    requires
        call_ensures(present_mode_count, (room,), r),
    ensures
        r <= 3,
        room is None ==> r == 3,
        room matches Some(n) ==> r <= n && (r == n || r == 3),
        PACED_PRESENT_MODES@ == seq![0i32, 1i32, 2i32],
{
    assert(PACED_PRESENT_MODES@ =~= seq![0i32, 1i32, 2i32]);
}

/// The feature of the one extension is on exactly where the device supports
/// the layer, and is left alone where the other extension is shown.
pub proof fn law_feature_needs_support(expose_reflex: bool, supports_required: bool, r: Option<bool>)
    requires
        call_ensures(anti_lag_feature, (expose_reflex, supports_required), r),
    ensures
        r is None <==> expose_reflex,
        r matches Some(on) ==> on == supports_required,
{
}

proof fn lemma_few_missing(enabled: Seq<Seq<u8>>, optionals: Seq<usize>, from: int)
    requires
        0 <= from <= optionals.len(),
    ensures
        missing_optional(enabled, optionals, from).len() <= optionals.len() - from,
    decreases optionals.len() - from,
{
    if from < optionals.len() {
        lemma_few_missing(enabled, optionals, from + 1);
    }
}

} // verus!
