//! The handles that the layer knows, and what they belong to.
//!
//! A dispatchable handle is a stable pointer: asking twice for the same
//! object gives the same handle. So a handle's number is its key.

use dashmap::DashMap;
use rustc_hash::FxBuildHasher;
use vstd::prelude::*;

verus! {

/// The concurrent map of `dashmap`.
#[verifier::external_type_specification]
#[verifier::external_body]
#[verifier::reject_recursive_types(K)]
#[verifier::reject_recursive_types(V)]
#[verifier::reject_recursive_types(S)]
pub struct ExDashMap<K, V, S>(DashMap<K, V, S>);

/// What a map holds.
pub uninterp spec fn contents(m: DashMap<u64, u64, FxBuildHasher>) -> Map<u64, u64>;

/// Calls `DashMap::with_hasher`: a new map is empty.
#[verifier::external_body]
fn dash_new() -> (r: DashMap<u64, u64, FxBuildHasher>)
    ensures
        contents(r).dom() == Set::<u64>::empty(),
{
    DashMap::with_hasher(FxBuildHasher)
}

/// Calls `DashMap::get` and copies what it finds.
#[verifier::external_body]
fn dash_get(m: &DashMap<u64, u64, FxBuildHasher>, key: u64) -> (r: Option<u64>)
    ensures
        r == (if contents(*m).contains_key(key) {
            Some(contents(*m)[key])
        } else {
            None
        }),
{
    m.get(&key).map(|r| *r.value())
}

/// Calls `DashMap::insert`: the key has the new value, whatever it had before.
#[verifier::external_body]
fn dash_insert(m: &mut DashMap<u64, u64, FxBuildHasher>, key: u64, value: u64)
    ensures
        contents(*final(m)) == contents(*old(m)).insert(key, value),
{
    m.insert(key, value);
}

/// Calls `DashMap::remove`: the key is gone.
#[verifier::external_body]
fn dash_remove(m: &mut DashMap<u64, u64, FxBuildHasher>, key: u64)
    ensures
        contents(*final(m)) == contents(*old(m)).remove(key),
{
    m.remove(&key);
}

/// Calls `DashMap::iter` and collects the keys: each once, in an order that is
/// the map's own.
#[verifier::external_body]
fn dash_keys(m: &DashMap<u64, u64, FxBuildHasher>) -> (r: Vec<u64>)
    ensures
        r@.no_duplicates(),
        r@.to_set() == contents(*m).dom(),
{
    m.iter().map(|e| *e.key()).collect()
}

/// Every handle that the layer knows.
pub struct Registry {
    pub instances: DashMap<u64, u64, FxBuildHasher>,
    /// The instance that each physical device was first seen through.
    pub physical_devices: DashMap<u64, u64, FxBuildHasher>,
    /// The physical device of each device.
    pub devices: DashMap<u64, u64, FxBuildHasher>,
    /// The device of each queue.
    pub queues: DashMap<u64, u64, FxBuildHasher>,
    /// Which instance has listed which physical device.
    pub listed: Vec<(u64, u64)>,
}

/// The keys of a map whose value is `owner`.
pub open spec fn owned_by(m: Map<u64, u64>, owner: u64) -> Set<u64> {
    m.dom().filter(|k: u64| m[k] == owner)
}

/// The physical devices that an instance has listed.
pub open spec fn listed_by(s: Seq<(u64, u64)>, instance: u64) -> Seq<u64>
    decreases s.len(),
{
    if s.len() == 0 {
        Seq::empty()
    } else if s.last().0 == instance {
        listed_by(s.drop_last(), instance).push(s.last().1)
    } else {
        listed_by(s.drop_last(), instance)
    }
}

/// What the other instances have listed.
pub open spec fn listed_by_others(s: Seq<(u64, u64)>, instance: u64) -> Seq<(u64, u64)>
    decreases s.len(),
{
    if s.len() == 0 {
        Seq::empty()
    } else if s.last().0 == instance {
        listed_by_others(s.drop_last(), instance)
    } else {
        listed_by_others(s.drop_last(), instance).push(s.last())
    }
}

/// A map with a key added, unless it is there.
pub open spec fn or_inserted(m: Map<u64, u64>, key: u64, value: u64) -> Map<u64, u64> {
    if m.contains_key(key) {
        m
    } else {
        m.insert(key, value)
    }
}

impl Registry {
    pub fn new() -> (r: Self)
        ensures
            contents(r.instances).dom() == Set::<u64>::empty(),
            contents(r.physical_devices).dom() == Set::<u64>::empty(),
            contents(r.devices).dom() == Set::<u64>::empty(),
            contents(r.queues).dom() == Set::<u64>::empty(),
            r.listed@.len() == 0,
    {
        Registry {
            instances: dash_new(),
            physical_devices: dash_new(),
            devices: dash_new(),
            queues: dash_new(),
            listed: Vec::new(),
        }
    }

    /// Whether an instance is known.
    pub fn has_instance(&self, instance: u64) -> (r: bool)
        ensures
            r == contents(self.instances).contains_key(instance),
    {
        dash_get(&self.instances, instance).is_some()
    }

    /// The instance of a physical device.
    pub fn instance_of(&self, physical_device: u64) -> (r: Option<u64>)
        ensures
            r == (if contents(self.physical_devices).contains_key(physical_device) {
                Some(contents(self.physical_devices)[physical_device])
            } else {
                None
            }),
    {
        dash_get(&self.physical_devices, physical_device)
    }

    /// The physical device of a device.
    pub fn physical_device_of(&self, device: u64) -> (r: Option<u64>)
        ensures
            r == (if contents(self.devices).contains_key(device) {
                Some(contents(self.devices)[device])
            } else {
                None
            }),
    {
        dash_get(&self.devices, device)
    }

    /// The device of a queue.
    pub fn device_of(&self, queue: u64) -> (r: Option<u64>)
        ensures
            r == (if contents(self.queues).contains_key(queue) {
                Some(contents(self.queues)[queue])
            } else {
                None
            }),
    {
        dash_get(&self.queues, queue)
    }

    pub fn create_instance(&mut self, instance: u64)
        ensures
            contents(final(self).instances) == contents(old(self).instances).insert(
                instance,
                instance,
            ),
            final(self).physical_devices == old(self).physical_devices,
            final(self).devices == old(self).devices,
            final(self).queues == old(self).queues,
            final(self).listed == old(self).listed,
    {
        dash_insert(&mut self.instances, instance, instance);
    }

    /// Takes in one physical device that an instance lists; says whether it is
    /// new. One that is known stays with the instance it was first seen
    /// through.
    pub fn list_physical_device(&mut self, instance: u64, physical_device: u64) -> (fresh: bool)
        ensures
            fresh == !contents(old(self).physical_devices).contains_key(physical_device),
            contents(final(self).physical_devices) == or_inserted(
                contents(old(self).physical_devices),
                physical_device,
                instance,
            ),
            final(self).listed@ == (if old(self).listed@.contains((instance, physical_device)) {
                old(self).listed@
            } else {
                old(self).listed@.push((instance, physical_device))
            }),
            final(self).instances == old(self).instances,
            final(self).devices == old(self).devices,
            final(self).queues == old(self).queues,
    {
        let fresh = dash_get(&self.physical_devices, physical_device).is_none();
        if fresh {
            dash_insert(&mut self.physical_devices, physical_device, instance);
        }
        let mut i: usize = 0;
        while i < self.listed.len()
            invariant
                i <= self.listed@.len(),
                self.listed == old(self).listed,
                self.instances == old(self).instances,
                self.devices == old(self).devices,
                self.queues == old(self).queues,
                fresh == !contents(old(self).physical_devices).contains_key(physical_device),
                contents(self.physical_devices) == or_inserted(
                    contents(old(self).physical_devices),
                    physical_device,
                    instance,
                ),
                forall|j: int| 0 <= j < i ==> self.listed@[j] != (instance, physical_device),
            decreases self.listed@.len() - i,
        {
            let (a, b): (u64, u64) = self.listed[i];
            if a == instance && b == physical_device {
                proof {
                    assert(self.listed@[i as int] == (instance, physical_device));
                }
                return fresh;
            }
            i += 1;
        }
        self.listed.push((instance, physical_device));
        fresh
    }

    /// Forgets an instance and every physical device that it has listed;
    /// gives the latter.
    pub fn destroy_instance(&mut self, instance: u64) -> (r: Option<Vec<u64>>)
        ensures
            final(self).devices == old(self).devices,
            final(self).queues == old(self).queues,
            match r {
                None => {
                    &&& !contents(old(self).instances).contains_key(instance)
                    &&& *final(self) == *old(self)
                },
                Some(gone) => {
                    &&& contents(old(self).instances).contains_key(instance)
                    &&& contents(final(self).instances) == contents(old(self).instances).remove(
                        instance,
                    )
                    &&& gone@ == listed_by(old(self).listed@, instance)
                    &&& contents(final(self).physical_devices) == contents(
                        old(self).physical_devices,
                    ).remove_keys(gone@.to_set())
                    &&& final(self).listed@ == listed_by_others(old(self).listed@, instance)
                },
            },
    {
        if dash_get(&self.instances, instance).is_none() {
            return None;
        }
        dash_remove(&mut self.instances, instance);
        let ghost all = self.listed@;
        let ghost devices = contents(self.physical_devices);
        let mut gone: Vec<u64> = Vec::new();
        let mut rest: Vec<(u64, u64)> = Vec::new();
        let mut i: usize = 0;
        proof {
            assert(all.take(0) =~= Seq::<(u64, u64)>::empty());
            assert(devices.remove_keys(gone@.to_set()) =~= devices);
        }
        while i < self.listed.len()
            invariant
                i <= self.listed@.len(),
                self.listed@ == all,
                self.devices == old(self).devices,
                self.queues == old(self).queues,
                contents(self.instances) == contents(old(self).instances).remove(instance),
                gone@ == listed_by(all.take(i as int), instance),
                rest@ == listed_by_others(all.take(i as int), instance),
                contents(self.physical_devices) == devices.remove_keys(gone@.to_set()),
            decreases self.listed@.len() - i,
        {
            let ghost before = gone@;
            let (a, b): (u64, u64) = self.listed[i];
            proof {
                assert(all.take(i + 1).last() == all[i as int]);
                assert(all.take(i + 1).drop_last() =~= all.take(i as int));
            }
            if a == instance {
                dash_remove(&mut self.physical_devices, b);
                gone.push(b);
                proof {
                    assert(before.push(b).to_set() =~= before.to_set().insert(b)) by {
                        assert forall|x: u64| before.push(b).to_set().contains(x)
                            == before.to_set().insert(b).contains(x) by {
                            if before.to_set().contains(x) {
                                let j = choose|j: int| 0 <= j < before.len() && before[j] == x;
                                assert(before.push(b)[j] == x);
                            }
                            assert(before.push(b)[before.len() as int] == b);
                        }
                    }
                    assert(contents(self.physical_devices) =~= devices.remove_keys(gone@.to_set()));
                }
            } else {
                rest.push((a, b));
            }
            i += 1;
        }
        proof {
            assert(all.take(i as int) =~= all);
        }
        self.listed = rest;
        Some(gone)
    }

    pub fn create_device(&mut self, device: u64, physical_device: u64)
        ensures
            contents(final(self).devices) == contents(old(self).devices).insert(
                device,
                physical_device,
            ),
            final(self).instances == old(self).instances,
            final(self).physical_devices == old(self).physical_devices,
            final(self).queues == old(self).queues,
            final(self).listed == old(self).listed,
    {
        dash_insert(&mut self.devices, device, physical_device);
    }

    /// Takes in a queue of a device, unless it is known; says whether it was
    /// new.
    pub fn register_queue(&mut self, queue: u64, device: u64) -> (fresh: bool)
        ensures
            fresh == !contents(old(self).queues).contains_key(queue),
            contents(final(self).queues) == or_inserted(contents(old(self).queues), queue, device),
            final(self).instances == old(self).instances,
            final(self).physical_devices == old(self).physical_devices,
            final(self).devices == old(self).devices,
            final(self).listed == old(self).listed,
    {
        if dash_get(&self.queues, queue).is_some() {
            return false;
        }
        dash_insert(&mut self.queues, queue, device);
        true
    }

    /// Forgets a device and every queue of it; gives the queues.
    pub fn destroy_device(&mut self, device: u64) -> (r: Option<Vec<u64>>)
        ensures
            final(self).instances == old(self).instances,
            final(self).physical_devices == old(self).physical_devices,
            final(self).listed == old(self).listed,
            match r {
                None => {
                    &&& !contents(old(self).devices).contains_key(device)
                    &&& *final(self) == *old(self)
                },
                Some(gone) => {
                    &&& contents(old(self).devices).contains_key(device)
                    &&& contents(final(self).devices) == contents(old(self).devices).remove(device)
                    &&& gone@.no_duplicates()
                    &&& gone@.to_set() == owned_by(contents(old(self).queues), device)
                    &&& contents(final(self).queues) == contents(old(self).queues).remove_keys(
                        owned_by(contents(old(self).queues), device),
                    )
                },
            },
    {
        if dash_get(&self.devices, device).is_none() {
            return None;
        }
        dash_remove(&mut self.devices, device);
        let ghost before = contents(self.queues);
        let keys = dash_keys(&self.queues);
        let mut gone: Vec<u64> = Vec::new();
        let mut i: usize = 0;
        proof {
            assert(before.remove_keys(gone@.to_set()) =~= before);
        }
        while i < keys.len()
            invariant
                i <= keys@.len(),
                keys@.no_duplicates(),
                keys@.to_set() == before.dom(),
                self.instances == old(self).instances,
                self.physical_devices == old(self).physical_devices,
                self.listed == old(self).listed,
                before == contents(old(self).queues),
                contents(self.devices) == contents(old(self).devices).remove(device),
                contents(self.queues) == before.remove_keys(gone@.to_set()),
                gone@.no_duplicates(),
                forall|x: u64| #[trigger]
                    gone@.contains(x) <==> keys@.take(i as int).contains(x) && before[x] == device,
            decreases keys@.len() - i,
        {
            let key: u64 = keys[i];
            let ghost was = gone@;
            proof {
                assert(keys@.to_set().contains(key));
                if was.contains(key) {
                    let j = choose|j: int| 0 <= j < keys@.take(i as int).len() && keys@.take(
                        i as int,
                    )[j] == key;
                    assert(keys@[j] == keys@[i as int]);
                    assert(false);
                }
                assert(!was.to_set().contains(key));
            }
            if let Some(owner) = dash_get(&self.queues, key) {
                if owner == device {
                    dash_remove(&mut self.queues, key);
                    gone.push(key);
                    proof {
                        lemma_push_set(was, key);
                        assert(contents(self.queues) =~= before.remove_keys(gone@.to_set()));
                    }
                }
            }
            proof {
                assert forall|x: u64| #[trigger]
                    gone@.contains(x) <==> keys@.take(i + 1).contains(x) && before[x] == device by {
                    lemma_contains_push(keys@, i as int, x);
                    lemma_push_set(was, key);
                    assert(gone@ == was || gone@ == was.push(key));
                    assert(was.contains(x) == was.to_set().contains(x));
                    assert(gone@.contains(x) == gone@.to_set().contains(x));
                }
            }
            i += 1;
        }
        proof {
            assert(keys@.take(i as int) =~= keys@);
            assert forall|x: u64| gone@.to_set().contains(x) == owned_by(before, device).contains(
                x,
            ) by {
                assert(gone@.contains(x) == gone@.to_set().contains(x));
                assert(keys@.contains(x) == keys@.to_set().contains(x));
            }
            assert(gone@.to_set() =~= owned_by(before, device));
        }
        Some(gone)
    }
}

proof fn lemma_push_set(s: Seq<u64>, x: u64)
    ensures
        s.push(x).to_set() == s.to_set().insert(x),
        forall|y: u64| s.push(x).contains(y) == (s.contains(y) || y == x),
{
    assert forall|y: u64| s.push(x).contains(y) == (s.contains(y) || y == x) by {
        if s.contains(y) {
            let j = choose|j: int| 0 <= j < s.len() && s[j] == y;
            assert(s.push(x)[j] == y);
        }
        assert(s.push(x)[s.len() as int] == x);
    }
    assert forall|y: u64| s.push(x).to_set().contains(y) == s.to_set().insert(x).contains(y) by {
        assert(s.push(x).contains(y) == s.push(x).to_set().contains(y));
        assert(s.contains(y) == s.to_set().contains(y));
    }
    assert(s.push(x).to_set() =~= s.to_set().insert(x));
}

proof fn lemma_contains_push(s: Seq<u64>, i: int, x: u64)
    requires
        0 <= i < s.len(),
    ensures
        s.take(i + 1).contains(x) == (s.take(i).contains(x) || s[i] == x),
{
    assert(s.take(i + 1) =~= s.take(i).push(s[i]));
    lemma_push_set(s.take(i), s[i]);
}

/// Once a device is destroyed, none of its queues is known, and those of the
/// other devices are as they were.
pub proof fn law_device_takes_its_queues(before: Map<u64, u64>, device: u64, queue: u64)
    ensures
        ({
            let after = before.remove_keys(owned_by(before, device));
            &&& after.contains_key(queue) == (before.contains_key(queue) && before[queue] != device)
            &&& after.contains_key(queue) ==> after[queue] == before[queue]
        }),
{
}

/// What is known of a handle is what was said of it last: an instance once it
/// has been created, a device with its physical device, and nothing of the
/// others changes.
pub proof fn law_created_handles_are_known(
    a: &mut Registry,
    instance: u64,
    known: bool,
    b: &mut Registry,
    device: u64,
    physical_device: u64,
    of_device: Option<u64>,
    other: u64,
    of_other_before: Option<u64>,
    of_other: Option<u64>,
)
    requires
        call_ensures(Registry::create_instance, (a, instance), ()),
        call_ensures(Registry::has_instance, (&*final(a), instance), known),
        *old(b) == *final(a),
        call_ensures(Registry::create_device, (b, device, physical_device), ()),
        call_ensures(Registry::physical_device_of, (&*final(b), device), of_device),
        other != device,
        call_ensures(Registry::physical_device_of, (&*old(b), other), of_other_before),
        call_ensures(Registry::physical_device_of, (&*final(b), other), of_other),
    ensures
        known,
        of_device == Some(physical_device),
        of_other == of_other_before,
        contents(final(b).queues) == contents(old(a).queues),
        contents(final(b).physical_devices) == contents(old(a).physical_devices),
{
}

/// A physical device belongs to the instance that it was first seen through,
/// and a queue to the device that it was first got from: a second time changes
/// nothing, and only the first is new.
pub proof fn law_first_owner_stays(
    a: &mut Registry,
    instance: u64,
    physical_device: u64,
    first: bool,
    b: &mut Registry,
    later: u64,
    second: bool,
    of_device: Option<u64>,
    c: &mut Registry,
    queue: u64,
    device: u64,
    fresh: bool,
    d: &mut Registry,
    other: u64,
    again: bool,
    of_queue: Option<u64>,
)
    requires
        call_ensures(Registry::list_physical_device, (a, instance, physical_device), first),
        *old(b) == *final(a),
        call_ensures(Registry::list_physical_device, (b, later, physical_device), second),
        call_ensures(Registry::instance_of, (&*final(b), physical_device), of_device),
        *old(c) == *final(b),
        call_ensures(Registry::register_queue, (c, queue, device), fresh),
        *old(d) == *final(c),
        call_ensures(Registry::register_queue, (d, queue, other), again),
        call_ensures(Registry::device_of, (&*final(d), queue), of_queue),
    ensures
        !second,
        !again,
        first ==> of_device == Some(instance),
        !first ==> of_device == Some(contents(old(a).physical_devices)[physical_device]),
        fresh ==> of_queue == Some(device),
        !fresh ==> of_queue == Some(contents(old(c).queues)[queue]),
        final(b).listed@.contains((instance, physical_device)),
        final(b).listed@.contains((later, physical_device)),
        later == instance ==> final(b).listed@ == final(a).listed@,
        old(a).listed@.is_prefix_of(final(a).listed@),
        final(a).listed@.len() <= old(a).listed@.len() + 1,
{
    let x = (instance, physical_device);
    let y = (later, physical_device);
    assert(final(a).listed@.contains(x)) by {
        if !old(a).listed@.contains(x) {
            assert(final(a).listed@[final(a).listed@.len() - 1] == x);
        }
    }
    let i = choose|i: int| 0 <= i < final(a).listed@.len() && final(a).listed@[i] == x;
    assert(final(b).listed@[i] == x);
    if !old(b).listed@.contains(y) {
        assert(final(b).listed@[final(b).listed@.len() - 1] == y);
    }
}

proof fn lemma_listed(s: Seq<(u64, u64)>, instance: u64)
    ensures
        listed_by(s, instance) == s.filter(|p: (u64, u64)| p.0 == instance).map_values(
            |p: (u64, u64)| p.1,
        ),
        listed_by_others(s, instance) == s.filter(|p: (u64, u64)| p.0 != instance),
    decreases s.len(),
{
    reveal(Seq::filter);
    let mine = |p: (u64, u64)| p.0 == instance;
    let others = |p: (u64, u64)| p.0 != instance;
    let f = |p: (u64, u64)| p.1;
    if s.len() > 0 {
        let rest = s.drop_last();
        lemma_listed(rest, instance);
        assert(rest.filter(mine).push(s.last()).map_values(f) =~= rest.filter(mine).map_values(
            f,
        ).push(f(s.last())));
    } else {
        assert(s.filter(mine).map_values(f) =~= Seq::empty());
        assert(s.filter(others) =~= Seq::empty());
    }
}

/// An instance that is destroyed takes every physical device that it has
/// listed along, in the order in which it listed them, and nothing else. What
/// other instances have listed stays listed. One that is not known changes
/// nothing.
pub proof fn law_instance_takes_its_physical_devices(
    a: &mut Registry,
    instance: u64,
    r: Option<Vec<u64>>,
    known: bool,
    physical_device: u64,
    was: Option<u64>,
    now: Option<u64>,
)
    requires
        call_ensures(Registry::destroy_instance, (a, instance), r),
        call_ensures(Registry::has_instance, (&*final(a), instance), known),
        call_ensures(Registry::instance_of, (&*old(a), physical_device), was),
        call_ensures(Registry::instance_of, (&*final(a), physical_device), now),
    ensures
        !known,
        r is Some <==> contents(old(a).instances).contains_key(instance),
        r is None ==> *final(a) == *old(a),
        r matches Some(gone) ==> {
            &&& gone@ == old(a).listed@.filter(|p: (u64, u64)| p.0 == instance).map_values(
                |p: (u64, u64)| p.1,
            )
            &&& final(a).listed@ == old(a).listed@.filter(|p: (u64, u64)| p.0 != instance)
            &&& gone@.contains(physical_device) ==> now is None
            &&& !gone@.contains(physical_device) ==> now == was
        },
        contents(final(a).devices) == contents(old(a).devices),
        contents(final(a).queues) == contents(old(a).queues),
{
    lemma_listed(old(a).listed@, instance);
    if let Some(gone) = r {
        assert(gone@.contains(physical_device) == gone@.to_set().contains(physical_device));
    }
}

/// A device that is destroyed takes all of its queues along, each once, and
/// those of no other. One that is not known changes nothing.
pub proof fn law_device_takes_its_own_queues(
    a: &mut Registry,
    device: u64,
    r: Option<Vec<u64>>,
    gone_device: Option<u64>,
    queue: u64,
    was: Option<u64>,
    now: Option<u64>,
)
    requires
        call_ensures(Registry::destroy_device, (a, device), r),
        call_ensures(Registry::physical_device_of, (&*final(a), device), gone_device),
        call_ensures(Registry::device_of, (&*old(a), queue), was),
        call_ensures(Registry::device_of, (&*final(a), queue), now),
    ensures
        gone_device is None,
        r is Some <==> contents(old(a).devices).contains_key(device),
        r is None ==> *final(a) == *old(a),
        r matches Some(gone) ==> {
            &&& gone@.no_duplicates()
            &&& gone@.contains(queue) <==> was == Some(device)
            &&& was == Some(device) ==> now is None
            &&& was != Some(device) ==> now == was
        },
        contents(final(a).instances) == contents(old(a).instances),
        contents(final(a).physical_devices) == contents(old(a).physical_devices),
{
    if let Some(gone) = r {
        assert(gone@.contains(queue) == gone@.to_set().contains(queue));
        law_device_takes_its_queues(contents(old(a).queues), device, queue);
    }
}

/// A new registry knows nothing.
pub proof fn law_new_registry_is_empty(
    r: Registry,
    handle: u64,
    known: bool,
    of_physical_device: Option<u64>,
    of_device: Option<u64>,
    of_queue: Option<u64>,
)
    requires
        call_ensures(Registry::new, (), r),
        call_ensures(Registry::has_instance, (&r, handle), known),
        call_ensures(Registry::instance_of, (&r, handle), of_physical_device),
        call_ensures(Registry::physical_device_of, (&r, handle), of_device),
        call_ensures(Registry::device_of, (&r, handle), of_queue),
    ensures
        !known,
        of_physical_device is None,
        of_device is None,
        of_queue is None,
        r.listed@.len() == 0,
{
    assert(contents(r.instances).dom().contains(handle) == contents(r.instances).contains_key(
        handle,
    ));
    assert(contents(r.physical_devices).dom().contains(handle) == contents(
        r.physical_devices,
    ).contains_key(handle));
    assert(contents(r.devices).dom().contains(handle) == contents(r.devices).contains_key(handle));
    assert(contents(r.queues).dom().contains(handle) == contents(r.queues).contains_key(handle));
}

} // verus!
