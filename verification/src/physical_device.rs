//! What the layer finds out of a physical device.

use vstd::prelude::*;
use vstd::slice::slice_subrange;
use vstd::string::*;

verus! {

/// Extensions that the layer cannot do without.
pub const REQUIRED_EXTENSIONS: [&'static str; 3] = [
    "VK_KHR_synchronization2",
    "VK_KHR_calibrated_timestamps",
    "VK_EXT_host_query_reset",
];

/// Extensions that are enabled only where the device has them. The first two
/// tell when a frame reached the display; the third is the fallback.
pub const OPTIONAL_EXTENSIONS: [&'static str; 3] = [
    "VK_KHR_present_id",
    "VK_KHR_present_wait",
    "VK_GOOGLE_display_timing",
];

/// The place of `VK_KHR_present_id` among the optional extensions.
pub const OPTIONAL_PRESENT_ID: usize = 0;

/// The place of `VK_KHR_present_wait` among the optional extensions.
pub const OPTIONAL_PRESENT_WAIT: usize = 1;

/// The names of extensions, as bytes.
pub open spec fn names(v: Seq<Vec<u8>>) -> Seq<Seq<u8>> {
    v.map_values(|n: Vec<u8>| n@)
}

/// The bytes of a raw name before its first zero.
pub open spec fn name_end(raw: Seq<u8>, i: int) -> int
    decreases raw.len() - i,
{
    if i < 0 || i >= raw.len() || raw[i] == 0 {
        i
    } else {
        name_end(raw, i + 1)
    }
}

pub open spec fn name_of(raw: Seq<u8>) -> Seq<u8> {
    raw.take(name_end(raw, 0))
}

proof fn lemma_name_end(raw: Seq<u8>, i: int)
    requires
        0 <= i <= raw.len(),
    ensures
        i <= name_end(raw, i) <= raw.len(),
    decreases raw.len() - i,
{
    if i < raw.len() && raw[i] != 0 {
        lemma_name_end(raw, i + 1);
    }
}

/// The name in a fixed-size field: what stands before the first zero, or all
/// of it.
pub fn ext_name(raw: &[u8]) -> (r: &[u8])
    ensures
        r@ == name_of(raw@),
{
    let mut end: usize = 0;
    while end < raw.len() && raw[end] != 0
        invariant
            end <= raw@.len(),
            name_end(raw@, 0) == name_end(raw@, end as int),
        decreases raw@.len() - end,
    {
        end += 1;
    }
    let r = slice_subrange(raw, 0, end);
    proof {
        assert(r@ =~= raw@.take(end as int));
    }
    r
}

pub fn same_bytes(a: &[u8], b: &[u8]) -> (r: bool)
    ensures
        r == (a@ == b@),
{
    if a.len() != b.len() {
        return false;
    }
    let mut i: usize = 0;
    while i < a.len()
        invariant
            i <= a@.len(),
            a@.len() == b@.len(),
            forall|j: int| 0 <= j < i ==> a@[j] == b@[j],
        decreases a@.len() - i,
    {
        if a[i] != b[i] {
            return false;
        }
        i += 1;
    }
    proof {
        assert(a@ =~= b@);
    }
    true
}

/// Whether a name is in a list.
pub fn has_name(list: &Vec<Vec<u8>>, name: &[u8]) -> (r: bool)
    ensures
        r == names(list@).contains(name@),
{
    let mut i: usize = 0;
    while i < list.len()
        invariant
            i <= list@.len(),
            forall|j: int| 0 <= j < i ==> #[trigger] names(list@)[j] != name@,
        decreases list@.len() - i,
    {
        if same_bytes(list[i].as_slice(), name) {
            proof {
                assert(names(list@)[i as int] == name@);
            }
            return true;
        }
        i += 1;
    }
    false
}

/// Whether everything that the layer needs is there.
pub open spec fn required_present(available: Seq<Seq<u8>>) -> bool {
    forall|i: int|
        0 <= i < 3 ==> available.contains((#[trigger] REQUIRED_EXTENSIONS@[i]).spec_bytes())
}

/// The optional extensions from `i` on that are there, by their places.
pub open spec fn optionals_from(available: Seq<Seq<u8>>, i: int) -> Seq<usize>
    decreases 3 - i,
{
    if i < 0 || i >= 3 {
        Seq::empty()
    } else if available.contains(OPTIONAL_EXTENSIONS@[i].spec_bytes()) {
        seq![i as usize] + optionals_from(available, i + 1)
    } else {
        optionals_from(available, i + 1)
    }
}

/// What the layer keeps of a physical device.
#[derive(Debug)]
pub struct PhysicalDeviceContext {
    pub supports_required_extensions: bool,
    /// The optional extensions that the device has, by their places in
    /// [`OPTIONAL_EXTENSIONS`].
    pub supported_optionals: Vec<usize>,
}

impl PhysicalDeviceContext {
    pub fn new(available: &Vec<Vec<u8>>) -> (r: Self)
        ensures
            r.supports_required_extensions == required_present(names(available@)),
            r.supported_optionals@ == optionals_from(names(available@), 0),
    {
        let mut supports = true;
        let mut i: usize = 0;
        while i < 3
            invariant
                i <= 3,
                supports == (forall|j: int|
                    0 <= j < i ==> names(available@).contains(
                        (#[trigger] REQUIRED_EXTENSIONS@[j]).spec_bytes(),
                    )),
            decreases 3 - i,
        {
            let found = has_name(available, REQUIRED_EXTENSIONS[i].as_bytes());
            proof {
                assert(found == names(available@).contains(
                    REQUIRED_EXTENSIONS@[i as int].spec_bytes(),
                ));
            }
            supports = supports && found;
            i += 1;
        }
        let mut optionals: Vec<usize> = Vec::new();
        let mut k: usize = 0;
        proof {
            assert(optionals@ + optionals_from(names(available@), 0) =~= optionals_from(
                names(available@),
                0,
            ));
        }
        while k < 3
            invariant
                k <= 3,
                optionals@ + optionals_from(names(available@), k as int) == optionals_from(
                    names(available@),
                    0,
                ),
            decreases 3 - k,
        {
            let ghost before = optionals@;
            if has_name(available, OPTIONAL_EXTENSIONS[k].as_bytes()) {
                optionals.push(k);
                proof {
                    let rest = optionals_from(names(available@), k + 1);
                    assert(before + (seq![k] + rest) =~= before.push(k) + rest);
                }
            }
            k += 1;
        }
        proof {
            assert(optionals@ + optionals_from(names(available@), 3) =~= optionals@);
        }
        PhysicalDeviceContext {
            supports_required_extensions: supports,
            supported_optionals: optionals,
        }
    }
}

/// The names of the extensions that a driver lists, without their padding.
/// Where it could not list them there are none.
pub fn list_available_extensions(listed: bool, raw: &Vec<Vec<u8>>) -> (r: Vec<Vec<u8>>)
    ensures
        listed ==> names(r@) == names(raw@).map_values(|n: Seq<u8>| name_of(n)),
        !listed ==> r@.len() == 0,
{
    let mut out: Vec<Vec<u8>> = Vec::new();
    if !listed {
        return out;
    }
    let mut i: usize = 0;
    while i < raw.len()
        invariant
            i <= raw@.len(),
            out@.len() == i,
            forall|j: int| 0 <= j < i ==> #[trigger] out@[j]@ == name_of(raw@[j]@),
        decreases raw@.len() - i,
    {
        let name = ext_name(raw[i].as_slice());
        out.push(to_vec(name));
        i += 1;
    }
    proof {
        assert(names(out@) =~= names(raw@).map_values(|n: Seq<u8>| name_of(n)));
    }
    out
}

pub fn to_vec(s: &[u8]) -> (r: Vec<u8>)
    ensures
        r@ == s@,
{
    let mut out: Vec<u8> = Vec::new();
    let mut i: usize = 0;
    while i < s.len()
        invariant
            i <= s@.len(),
            out@ == s@.take(i as int),
        decreases s@.len() - i,
    {
        out.push(s[i]);
        proof {
            assert(s@.take(i + 1) =~= s@.take(i as int).push(s@[i as int]));
        }
        i += 1;
    }
    proof {
        assert(s@.take(i as int) =~= s@);
    }
    out
}

/// A name holds no zero, and the whole field does where it is shorter.
pub proof fn law_name_stops_at_zero(raw: Seq<u8>)
    ensures
        0 <= name_end(raw, 0) <= raw.len(),
        forall|j: int| 0 <= j < name_end(raw, 0) ==> raw[j] != 0,
        name_end(raw, 0) < raw.len() ==> raw[name_end(raw, 0)] == 0,
{
    lemma_name_end(raw, 0);
    lemma_name_stops(raw, 0);
}

proof fn lemma_name_stops(raw: Seq<u8>, i: int)
    requires
        0 <= i <= raw.len(),
    ensures
        forall|j: int| i <= j < name_end(raw, i) ==> raw[j] != 0,
        name_end(raw, i) < raw.len() ==> raw[name_end(raw, i)] == 0,
    decreases raw.len() - i,
{
    if i < raw.len() && raw[i] != 0 {
        lemma_name_stops(raw, i + 1);
    }
}

/// A name is what stands before the first zero of its field, or the whole
/// field.
pub proof fn law_name_is_before_the_zero(raw: &[u8], r: &[u8])
    requires
        call_ensures(ext_name, (raw,), r),
    ensures
        r@.len() <= raw@.len(),
        r@ == raw@.take(r@.len() as int),
        forall|j: int| 0 <= j < r@.len() ==> #[trigger] r@[j] != 0,
        r@.len() < raw@.len() ==> raw@[r@.len() as int] == 0,
{
    law_name_stops_at_zero(raw@);
}

/// A device supports the layer exactly where it has each of the three
/// extensions without which it cannot be.
pub proof fn law_all_required_are_needed(available: &Vec<Vec<u8>>, r: PhysicalDeviceContext)
    requires
        call_ensures(PhysicalDeviceContext::new, (available,), r),
    ensures
        r.supports_required_extensions <==> {
            &&& names(available@).contains("VK_KHR_synchronization2".spec_bytes())
            &&& names(available@).contains("VK_KHR_calibrated_timestamps".spec_bytes())
            &&& names(available@).contains("VK_EXT_host_query_reset".spec_bytes())
        },
{
    assert(REQUIRED_EXTENSIONS@[0] == "VK_KHR_synchronization2");
    assert(REQUIRED_EXTENSIONS@[1] == "VK_KHR_calibrated_timestamps");
    assert(REQUIRED_EXTENSIONS@[2] == "VK_EXT_host_query_reset");
}

/// The optional extensions that are kept are exactly those that the device
/// has, each once and in their order.
pub proof fn law_optionals_are_those_available(
    available: &Vec<Vec<u8>>,
    r: PhysicalDeviceContext,
    k: usize,
)
    requires
        call_ensures(PhysicalDeviceContext::new, (available,), r),
        k < 3,
    ensures
        r.supported_optionals@.contains(k) <==> names(available@).contains(
            OPTIONAL_EXTENSIONS@[k as int].spec_bytes(),
        ),
        forall|i: int, j: int|
            0 <= i < j < r.supported_optionals@.len() ==> r.supported_optionals@[i]
                < r.supported_optionals@[j],
        forall|i: int| 0 <= i < r.supported_optionals@.len() ==> r.supported_optionals@[i] < 3,
{
    lemma_optionals(names(available@), 0, k);
}

proof fn lemma_optionals(available: Seq<Seq<u8>>, from: int, k: usize)
    requires
        0 <= from <= 3,
        k < 3,
    ensures
        ({
            let s = optionals_from(available, from);
            &&& s.contains(k) <==> from <= k && available.contains(
                OPTIONAL_EXTENSIONS@[k as int].spec_bytes(),
            )
            &&& forall|i: int, j: int| 0 <= i < j < s.len() ==> s[i] < s[j]
            &&& forall|i: int| 0 <= i < s.len() ==> from <= #[trigger] s[i] < 3
        }),
    decreases 3 - from,
{
    let s = optionals_from(available, from);
    if from < 3 {
        lemma_optionals(available, from + 1, k);
        let rest = optionals_from(available, from + 1);
        if available.contains(OPTIONAL_EXTENSIONS@[from].spec_bytes()) {
            assert(s == seq![from as usize] + rest);
            assert forall|i: int| 0 <= i < s.len() implies from <= #[trigger] s[i] < 3 by {
                if i > 0 {
                    assert(s[i] == rest[i - 1]);
                }
            }
            assert forall|i: int, j: int| 0 <= i < j < s.len() implies s[i] < s[j] by {
                assert(s[j] == rest[j - 1]);
                if i > 0 {
                    assert(s[i] == rest[i - 1]);
                }
            }
            if k == from {
                assert(s[0] == k);
            } else if rest.contains(k) {
                let i = choose|i: int| 0 <= i < rest.len() && rest[i] == k;
                assert(s[i + 1] == k);
            }
            if s.contains(k) && k != from {
                let i = choose|i: int| 0 <= i < s.len() && s[i] == k;
                assert(rest[i - 1] == k);
            }
        } else if k == from && s.contains(k) {
            let i = choose|i: int| 0 <= i < s.len() && s[i] == k;
            assert(from + 1 <= rest[i]);
        }
    }
}

/// Every name of the driver's list is there, in order and without its padding,
/// where the list could be had.
pub proof fn law_available_names_are_listed(listed: bool, raw: &Vec<Vec<u8>>, r: Vec<Vec<u8>>, i: int)
    requires
        call_ensures(list_available_extensions, (listed, raw), r),
    ensures
        !listed ==> r@.len() == 0,
        listed ==> r@.len() == raw@.len(),
        listed && 0 <= i < raw@.len() ==> {
            &&& r@[i]@.len() <= raw@[i]@.len()
            &&& r@[i]@ == raw@[i]@.take(r@[i]@.len() as int)
            &&& forall|j: int| 0 <= j < r@[i]@.len() ==> #[trigger] r@[i]@[j] != 0
            &&& r@[i]@.len() < raw@[i]@.len() ==> raw@[i]@[r@[i]@.len() as int] == 0
        },
{
    if listed {
        assert(names(r@).len() == names(raw@).len());
        if 0 <= i < raw@.len() {
            assert(names(r@)[i] == name_of(names(raw@)[i]));
            law_name_stops_at_zero(raw@[i]@);
        }
    }
}

/// A name is in a list where one of its entries has the same bytes.
pub proof fn law_names_are_compared_whole(list: &Vec<Vec<u8>>, name: &[u8], r: bool)
    requires
        call_ensures(has_name, (list, name), r),
    ensures
        r <==> exists|i: int| 0 <= i < list@.len() && (#[trigger] list@[i])@ == name@,
{
    if r {
        let i = choose|i: int| 0 <= i < names(list@).len() && names(list@)[i] == name@;
        assert(list@[i]@ == name@);
    }
    if exists|i: int| 0 <= i < list@.len() && (#[trigger] list@[i])@ == name@ {
        let i = choose|i: int| 0 <= i < list@.len() && (#[trigger] list@[i])@ == name@;
        assert(names(list@)[i] == name@);
    }
}

} // verus!
