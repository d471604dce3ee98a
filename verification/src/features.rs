//! The feature structures of a device that is created under the layer.
//!
//! The layer needs a few features that the application may not have asked
//! for. Where the application's chain has a structure with the switch, the
//! switch is set there; else a structure of the layer's own goes in front.

use vstd::prelude::*;
use crate::pnext;
use crate::pnext::find;

verus! {

pub const VULKAN_1_2_FEATURES: i32 = 51;

pub const VULKAN_1_3_FEATURES: i32 = 53;

pub const SYNCHRONIZATION_2_FEATURES: i32 = 1_000_314_007;

pub const HOST_QUERY_RESET_FEATURES: i32 = 1_000_261_000;

pub const PRESENT_ID_FEATURES: i32 = 1_000_294_001;

pub const PRESENT_WAIT_FEATURES: i32 = 1_000_248_000;

/// What an instance and a device allow. A structure of a version that the
/// instance does not know must not be touched.
#[derive(Debug, Clone, Copy)]
pub struct ApiCaps {
    pub v_1_2: bool,
    pub v_1_3: bool,
    pub enable_present_id: bool,
    pub enable_present_wait: bool,
}

/// Where a switch is set.
#[derive(Debug, Clone, Copy, PartialEq, Eq, Structural)]
pub enum Switch {
    /// In the link at this place of the application's chain.
    InLink(usize),
    /// In a structure of the layer's own.
    Appended,
    /// Nowhere: it is not wanted.
    Unset,
}

/// Where each switch is set.
#[derive(Debug, Clone, Copy, PartialEq, Eq, Structural)]
pub struct FeaturePatch {
    pub sync2: Switch,
    pub hqr: Switch,
    pub present_id: Switch,
    pub present_wait: Switch,
}

pub open spec fn switch_at(place: Option<int>) -> Switch {
    match place {
        Some(i) => Switch::InLink(i as usize),
        None => Switch::Appended,
    }
}

/// Where a switch goes that a structure of its own has, and, if the instance
/// knows that version, the structure of a whole version before it.
pub open spec fn versioned_switch(chain: Seq<i32>, known: bool, version: i32, own: i32) -> Switch {
    if known && pnext::first_of(chain, version) is Some {
        switch_at(pnext::first_of(chain, version))
    } else {
        switch_at(pnext::first_of(chain, own))
    }
}

/// Where a switch goes that is wanted only if the device supports it.
pub open spec fn optional_switch(chain: Seq<i32>, wanted: bool, own: i32) -> Switch {
    if wanted {
        switch_at(pnext::first_of(chain, own))
    } else {
        Switch::Unset
    }
}

pub open spec fn patch_of(chain: Seq<i32>, caps: ApiCaps) -> FeaturePatch {
    FeaturePatch {
        sync2: versioned_switch(
            chain,
            caps.v_1_3,
            VULKAN_1_3_FEATURES,
            SYNCHRONIZATION_2_FEATURES,
        ),
        hqr: versioned_switch(chain, caps.v_1_2, VULKAN_1_2_FEATURES, HOST_QUERY_RESET_FEATURES),
        present_id: optional_switch(chain, caps.enable_present_id, PRESENT_ID_FEATURES),
        present_wait: optional_switch(chain, caps.enable_present_wait, PRESENT_WAIT_FEATURES),
    }
}

fn own_switch(chain: &[i32], own: i32) -> (r: Switch)
    ensures
        r == switch_at(pnext::first_of(chain@, own)),
{
    proof {
        pnext::law_find_is_first(chain@, own);
    }
    match find(chain, own) {
        Some(i) => Switch::InLink(i),
        None => Switch::Appended,
    }
}

fn find_versioned(chain: &[i32], known: bool, version: i32, own: i32) -> (r: Switch)
    ensures
        r == versioned_switch(chain@, known, version, own),
{
    if known {
        if let Some(i) = find(chain, version) {
            return Switch::InLink(i);
        }
    }
    own_switch(chain, own)
}

/// Decides where each switch is set. The switch of a whole version counts
/// before the one of a single feature.
pub fn patch_features(chain: &[i32], caps: ApiCaps) -> (r: FeaturePatch)
    ensures
        r == patch_of(chain@, caps),
{
    let sync2 = find_versioned(
        chain,
        caps.v_1_3,
        VULKAN_1_3_FEATURES,
        SYNCHRONIZATION_2_FEATURES,
    );
    let hqr = find_versioned(
        chain,
        caps.v_1_2,
        VULKAN_1_2_FEATURES,
        HOST_QUERY_RESET_FEATURES,
    );
    let present_id = if caps.enable_present_id {
        own_switch(chain, PRESENT_ID_FEATURES)
    } else {
        Switch::Unset
    };
    let present_wait = if caps.enable_present_wait {
        own_switch(chain, PRESENT_WAIT_FEATURES)
    } else {
        Switch::Unset
    };
    FeaturePatch { sync2, hqr, present_id, present_wait }
}

/// `chain` with one more link in front, if it is to be appended.
pub open spec fn linked(chain: Seq<i32>, s: Switch, own: i32) -> Seq<i32> {
    if s == Switch::Appended {
        seq![own] + chain
    } else {
        chain
    }
}

/// The chain with the layer's own structures in front.
pub open spec fn relinked(chain: Seq<i32>, p: FeaturePatch) -> Seq<i32> {
    linked(
        linked(
            linked(
                linked(chain, p.sync2, SYNCHRONIZATION_2_FEATURES),
                p.hqr,
                HOST_QUERY_RESET_FEATURES,
            ),
            p.present_id,
            PRESENT_ID_FEATURES,
        ),
        p.present_wait,
        PRESENT_WAIT_FEATURES,
    )
}

/// The structures that go in front of the chain, in the order in which they
/// are linked: each before all that came earlier.
pub fn relink_into(p: &FeaturePatch) -> (r: Vec<i32>)
    ensures
        forall|chain: Seq<i32>| #[trigger] relinked(chain, *p) == r@.reverse() + chain,
{
    let mut out: Vec<i32> = Vec::new();
    if p.sync2 == Switch::Appended {
        out.push(SYNCHRONIZATION_2_FEATURES);
    }
    if p.hqr == Switch::Appended {
        out.push(HOST_QUERY_RESET_FEATURES);
    }
    if p.present_id == Switch::Appended {
        out.push(PRESENT_ID_FEATURES);
    }
    if p.present_wait == Switch::Appended {
        out.push(PRESENT_WAIT_FEATURES);
    }
    proof {
        assert forall|chain: Seq<i32>| #[trigger] relinked(chain, *p) == out@.reverse() + chain by {
            assert(relinked(chain, *p) =~= out@.reverse() + chain);
        }
    }
    out
}

/// Whether a chain has a link of a type.
pub open spec fn has(chain: Seq<i32>, s_type: i32) -> bool {
    exists|i: int| 0 <= i < chain.len() && #[trigger] chain[i] == s_type
}

/// How many links of a type a chain has.
pub open spec fn times(chain: Seq<i32>, s_type: i32) -> nat {
    chain.to_multiset().count(s_type)
}

/// The layer never gives a chain a second structure of a type, and leaves the
/// application's own links as they are.
pub proof fn law_no_structure_twice(chain: Seq<i32>, caps: ApiCaps, s_type: i32)
    requires
        times(chain, s_type) <= 1,
    ensures
        times(relinked(chain, patch_of(chain, caps)), s_type) <= 1,
        relinked(chain, patch_of(chain, caps)).len() >= chain.len(),
        relinked(chain, patch_of(chain, caps)).skip(
            relinked(chain, patch_of(chain, caps)).len() - chain.len(),
        ) == chain,
{
    let p = patch_of(chain, caps);
    let c1 = linked(chain, p.sync2, SYNCHRONIZATION_2_FEATURES);
    let c2 = linked(c1, p.hqr, HOST_QUERY_RESET_FEATURES);
    let c3 = linked(c2, p.present_id, PRESENT_ID_FEATURES);
    let c4 = linked(c3, p.present_wait, PRESENT_WAIT_FEATURES);
    lemma_linked(chain, p.sync2, SYNCHRONIZATION_2_FEATURES, s_type);
    lemma_linked(c1, p.hqr, HOST_QUERY_RESET_FEATURES, s_type);
    lemma_linked(c2, p.present_id, PRESENT_ID_FEATURES, s_type);
    lemma_linked(c3, p.present_wait, PRESENT_WAIT_FEATURES, s_type);
    lemma_appended_is_missing(chain, SYNCHRONIZATION_2_FEATURES);
    lemma_appended_is_missing(chain, HOST_QUERY_RESET_FEATURES);
    lemma_appended_is_missing(chain, PRESENT_ID_FEATURES);
    lemma_appended_is_missing(chain, PRESENT_WAIT_FEATURES);
    assert(c1.skip(c1.len() - chain.len()) =~= chain);
    assert(c2.skip(c2.len() - chain.len()) =~= chain);
    assert(c3.skip(c3.len() - chain.len()) =~= chain);
    assert(c4.skip(c4.len() - chain.len()) =~= chain);
}

proof fn lemma_linked(chain: Seq<i32>, s: Switch, own: i32, s_type: i32)
    ensures
        times(linked(chain, s, own), s_type) == times(chain, s_type) + (if s == Switch::Appended
            && s_type == own {
            1nat
        } else {
            0nat
        }),
{
    broadcast use vstd::seq_lib::group_to_multiset_ensures;

    if s == Switch::Appended {
        let next = linked(chain, s, own);
        assert(next =~= seq![own] + chain);
        vstd::seq_lib::lemma_multiset_commutative(seq![own], chain);
        assert(seq![own] =~= Seq::<i32>::empty().push(own));
    }
}

proof fn lemma_appended_is_missing(chain: Seq<i32>, own: i32)
    ensures
        pnext::first_of(chain, own) is None ==> times(chain, own) == 0,
{
    broadcast use vstd::seq_lib::group_to_multiset_ensures;

    pnext::law_find_is_first(chain, own);
    if pnext::first_of(chain, own) is None {
        assert(!chain.contains(own));
    }
}

/// Every feature that the layer needs is on in the end: its switch is in a
/// link of the chain or in a structure that the layer adds.
pub proof fn law_features_are_on(chain: Seq<i32>, caps: ApiCaps)
    ensures
        ({
            let p = patch_of(chain, caps);
            let after = relinked(chain, p);
            &&& p.sync2 != Switch::Unset && p.hqr != Switch::Unset
            &&& has(after, SYNCHRONIZATION_2_FEATURES) || (caps.v_1_3 && has(
                after,
                VULKAN_1_3_FEATURES,
            ))
            &&& has(after, HOST_QUERY_RESET_FEATURES) || (caps.v_1_2 && has(
                after,
                VULKAN_1_2_FEATURES,
            ))
            &&& caps.enable_present_id ==> has(after, PRESENT_ID_FEATURES)
            &&& caps.enable_present_wait ==> has(after, PRESENT_WAIT_FEATURES)
        }),
{
    let p = patch_of(chain, caps);
    let c1 = linked(chain, p.sync2, SYNCHRONIZATION_2_FEATURES);
    let c2 = linked(c1, p.hqr, HOST_QUERY_RESET_FEATURES);
    let c3 = linked(c2, p.present_id, PRESENT_ID_FEATURES);
    let c4 = linked(c3, p.present_wait, PRESENT_WAIT_FEATURES);
    lemma_found(chain, SYNCHRONIZATION_2_FEATURES);
    lemma_found(chain, VULKAN_1_3_FEATURES);
    lemma_found(chain, HOST_QUERY_RESET_FEATURES);
    lemma_found(chain, VULKAN_1_2_FEATURES);
    lemma_found(chain, PRESENT_ID_FEATURES);
    lemma_found(chain, PRESENT_WAIT_FEATURES);
    lemma_linked_has(chain, p.sync2, SYNCHRONIZATION_2_FEATURES);
    lemma_linked_has(c1, p.hqr, HOST_QUERY_RESET_FEATURES);
    lemma_linked_has(c2, p.present_id, PRESENT_ID_FEATURES);
    lemma_linked_has(c3, p.present_wait, PRESENT_WAIT_FEATURES);
}

proof fn lemma_found(chain: Seq<i32>, s_type: i32)
    ensures
        pnext::first_of(chain, s_type) is Some ==> has(chain, s_type),
{
    pnext::law_find_is_first(chain, s_type);
}

proof fn lemma_linked_has(chain: Seq<i32>, s: Switch, own: i32)
    ensures
        forall|t: i32| #[trigger] has(chain, t) ==> has(linked(chain, s, own), t),
        s == Switch::Appended ==> has(linked(chain, s, own), own),
{
    let next = linked(chain, s, own);
    if s == Switch::Appended {
        assert(next[0] == own);
    }
    assert forall|t: i32| #[trigger] has(chain, t) implies has(next, t) by {
        let i = choose|i: int| 0 <= i < chain.len() && #[trigger] chain[i] == t;
        if s == Switch::Appended {
            assert(next[i + 1] == t);
        } else {
            assert(next[i] == t);
        }
    }
}

/// Whether a switch is set where it belongs: in the first link of the type, or
/// in a structure of the layer's own where the chain has none.
pub open spec fn is_set_in(chain: Seq<i32>, s: Switch, s_type: i32) -> bool {
    match s {
        Switch::InLink(i) => i < chain.len() && chain[i as int] == s_type && forall|j: int|
            0 <= j < i ==> #[trigger] chain[j] != s_type,
        Switch::Appended => forall|j: int| 0 <= j < chain.len() ==> #[trigger] chain[j] != s_type,
        Switch::Unset => false,
    }
}

proof fn lemma_is_set_in(chain: Seq<i32>, s_type: i32)
    requires
        chain.len() <= usize::MAX,
    ensures
        is_set_in(chain, switch_at(pnext::first_of(chain, s_type)), s_type),
{
    pnext::law_find_is_first(chain, s_type);
}

/// Each switch that is needed is set, and in the right structure. Where the
/// instance knows the version and the chain has the structure of that version,
/// it is set there, and the structure of the one feature is not looked for.
/// Presents get an id or a wait only where the device has it.
pub proof fn law_switches_are_set_in_place(chain: &[i32], caps: ApiCaps, r: FeaturePatch)
    requires
        call_ensures(patch_features, (chain, caps), r),
    ensures
        ({
            let in_1_3 = caps.v_1_3 && has(chain@, 53);
            let in_1_2 = caps.v_1_2 && has(chain@, 51);
            &&& in_1_3 ==> r.sync2 is InLink && is_set_in(chain@, r.sync2, 53)
            &&& !in_1_3 ==> is_set_in(chain@, r.sync2, 1_000_314_007)
            &&& in_1_2 ==> r.hqr is InLink && is_set_in(chain@, r.hqr, 51)
            &&& !in_1_2 ==> is_set_in(chain@, r.hqr, 1_000_261_000)
            &&& caps.enable_present_id ==> is_set_in(chain@, r.present_id, 1_000_294_001)
            &&& !caps.enable_present_id ==> r.present_id is Unset
            &&& caps.enable_present_wait ==> is_set_in(chain@, r.present_wait, 1_000_248_000)
            &&& !caps.enable_present_wait ==> r.present_wait is Unset
        }),
{
    let c = chain@;
    assert(chain.len() == c.len());
    pnext::law_find_is_first(c, 53);
    pnext::law_find_is_first(c, 51);
    lemma_is_set_in(c, 53);
    lemma_is_set_in(c, 51);
    lemma_is_set_in(c, 1_000_314_007);
    lemma_is_set_in(c, 1_000_261_000);
    lemma_is_set_in(c, 1_000_294_001);
    lemma_is_set_in(c, 1_000_248_000);
    if pnext::first_of(c, 53) is Some {
        assert(has(c, 53));
    }
    if pnext::first_of(c, 51) is Some {
        assert(has(c, 51));
    }
}

/// Exactly the structures of the layer's own are linked, each once.
pub proof fn law_appended_structures_are_linked(p: &FeaturePatch, r: Vec<i32>)
    requires
        call_ensures(relink_into, (p,), r),
    ensures
        r@.contains(1_000_314_007) <==> p.sync2 is Appended,
        r@.contains(1_000_261_000) <==> p.hqr is Appended,
        r@.contains(1_000_294_001) <==> p.present_id is Appended,
        r@.contains(1_000_248_000) <==> p.present_wait is Appended,
        r@.no_duplicates(),
        r@.len() <= 4,
{
    let none = Seq::<i32>::empty();
    let all = relinked(none, *p);
    assert(all == r@.reverse() + none);
    assert(all =~= r@.reverse());
    assert(r@ =~= all.reverse());
    let a: Seq<i32> = if p.sync2 is Appended { seq![1_000_314_007i32] } else { seq![] };
    let b: Seq<i32> = if p.hqr is Appended { seq![1_000_261_000i32] } else { seq![] };
    let c: Seq<i32> = if p.present_id is Appended { seq![1_000_294_001i32] } else { seq![] };
    let d: Seq<i32> = if p.present_wait is Appended { seq![1_000_248_000i32] } else { seq![] };
    assert(r@ =~= a + b + c + d);
    let ab = (a + b).len() as int;
    if p.sync2 is Appended {
        assert(r@[0] == 1_000_314_007);
    }
    if p.hqr is Appended {
        assert(r@[a.len() as int] == 1_000_261_000);
    }
    if p.present_id is Appended {
        assert(r@[ab] == 1_000_294_001);
    }
    if p.present_wait is Appended {
        assert(r@[(a + b + c).len() as int] == 1_000_248_000);
    }
}

} // verus!
