//! Which keyboard definition belongs to which connected device: definitions wait in a
//! store until a compatible device with their USB ids connects, and return to it when the
//! device disconnects.

use vstd::prelude::*;
use std::collections::HashMap;
use indexmap::IndexMap;

use crate::config::Config;
use crate::consts::{is_compatible, QMK_USAGE_ID, QMK_USAGE_PAGE};

verus! {

broadcast use vstd::std_specs::hash::group_hash_axioms;

/// What the server reads of a HID device.
#[derive(Debug)]
pub struct HidDevice {
    pub vendor_id: u16,
    pub product_id: u16,
    pub usage_id: u16,
    pub usage_page: u16,
    pub manufacturer: Option<String>,
}

/// The key of a pair of USB ids: vendor id in the high half, product id in the low half.
pub open spec fn config_key(vendor_id: u16, product_id: u16) -> u32 {
    (vendor_id as u32 * 65536 + product_id as u32) as u32
}

fn key_of(vendor_id: u16, product_id: u16) -> (key: u32)
    ensures
        key == config_key(vendor_id, product_id),
{
    vendor_id as u32 * 65536 + product_id as u32
}

/// The keyboard definitions whose keyboards are not connected, by USB ids.
pub struct ConfigStore {
    configs: HashMap<u32, Config>,
}

impl View for ConfigStore {
    type V = Map<u32, Config>;

    closed spec fn view(&self) -> Map<u32, Config> {
        self.configs@
    }
}

/// Every definition of the store is filed under its own USB ids.
pub open spec fn filed_by_ids(configs: Map<u32, Config>) -> bool {
    forall|k: u32|
        configs.contains_key(k) ==> k == config_key(
            (#[trigger] configs[k]).vendor_id,
            configs[k].product_id,
        )
}

/// A definition as it serves a device: with the device's manufacturer as vendor, where the
/// device names one.
pub open spec fn serves_device(config: Config, original: Config, device: &HidDevice) -> bool {
    &&& config.name == original.name
    &&& config.vendor@ == (match device.manufacturer {
        Some(m) => m@,
        None => original.vendor@,
    })
    &&& config.vendor_id == original.vendor_id
    &&& config.product_id == original.product_id
    &&& config.leds == original.leds
    &&& config.effects == original.effects
    &&& config.speed == original.speed
    &&& config.brightness == original.brightness
    &&& config.matrix == original.matrix
}

impl ConfigStore {
    /// An empty store.
    pub fn new() -> (store: ConfigStore)
        ensures
            store@ == Map::<u32, Config>::empty(),
    {
        ConfigStore { configs: HashMap::new() }
    }

    /// The number of definitions in the store.
    pub fn len(&self) -> (n: usize)
        ensures
            n == self@.len(),
    {
        self.configs.len()
    }

    /// Files a definition under its USB ids, in place of any definition filed there before,
    /// which is returned.
    pub fn insert(&mut self, config: Config) -> (previous: Option<Config>)
        ensures
            final(self)@ == old(self)@.insert(
                config_key(config.vendor_id, config.product_id),
                config,
            ),
            previous == old(self)@.get(config_key(config.vendor_id, config.product_id)),
    {
        let key: u32 = key_of(config.vendor_id, config.product_id);
        self.configs.insert(key, config)
    }

    /// Takes the definition filed under the given USB ids out of the store, if there is one.
    pub fn take(&mut self, vendor_id: u16, product_id: u16) -> (config: Option<Config>)
        ensures
            final(self)@ == old(self)@.remove(config_key(vendor_id, product_id)),
            config == old(self)@.get(config_key(vendor_id, product_id)),
    {
        let key: u32 = key_of(vendor_id, product_id);
        self.configs.remove(&key)
    }
}

/// Takes the definition for a device out of the store: only for a compatible device, and
/// only where a definition with its USB ids waits. The definition then names the device's
/// manufacturer as vendor, where the device names one.
pub fn claim_config(store: &mut ConfigStore, device: &HidDevice) -> (config: Option<Config>)
    ensures
        ({
            let key = config_key(device.vendor_id, device.product_id);
            if is_compatible_device(device) && old(store)@.contains_key(key) {
                &&& final(store)@ == old(store)@.remove(key)
                &&& config matches Some(c) && serves_device(c, old(store)@[key], device)
            } else {
                &&& final(store)@ == old(store)@
                &&& config is None
            }
        }),
{
    if !is_compatible(device.usage_id, device.usage_page) {
        return None;
    }
    match store.take(device.vendor_id, device.product_id) {
        Some(config) => {
            let mut config = config;
            if let Some(manufacturer) = &device.manufacturer {
                config.vendor = manufacturer.clone();
            }
            Some(config)
        },
        None => {
            assert(old(store)@.remove(config_key(device.vendor_id, device.product_id)) =~= old(
                store,
            )@);
            None
        },
    }
}

/// The device is the raw HID interface of a VIA keyboard.
pub open spec fn is_compatible_device(device: &HidDevice) -> bool {
    device.usage_id == QMK_USAGE_ID && device.usage_page == QMK_USAGE_PAGE
}

/// The position of the first compatible device among `devices`, if any.
pub fn first_compatible(devices: &Vec<HidDevice>) -> (index: Option<usize>)
    ensures
        match index {
            Some(i) => i < devices@.len() && is_compatible_device(&devices@[i as int]) && forall|
                j: int,
            | 0 <= j < i ==> !is_compatible_device(&devices@[j]),
            None => forall|j: int| 0 <= j < devices@.len() ==> !is_compatible_device(&devices@[j]),
        },
{
    let mut i: usize = 0;
    while i < devices.len()
        invariant
            i <= devices.len(),
            forall|j: int| 0 <= j < i ==> !is_compatible_device(&devices@[j]),
        decreases devices.len() - i,
    {
        if is_compatible(devices[i].usage_id, devices[i].usage_page) {
            return Some(i);
        }
        i = i + 1;
    }
    None
}

/// Returns the definition of a disconnected keyboard to the store, under its USB ids.
pub fn release_config(store: &mut ConfigStore, config: Config)
    ensures
        final(store)@ == old(store)@.insert(config_key(config.vendor_id, config.product_id), config),
{
    store.insert(config);
}

/// A definition returned to the store is what the store then holds under its USB ids, so
/// that `claim_config` for a compatible device with those ids takes out exactly that
/// definition; taking it out leaves the store as it was before the return, less whatever
/// was filed under those ids.
pub proof fn lemma_release_then_claim(store: Map<u32, Config>, config: Config, device: &HidDevice)
    requires
        is_compatible_device(device),
        device.vendor_id == config.vendor_id,
        device.product_id == config.product_id,
    ensures
        ({
            let key = config_key(config.vendor_id, config.product_id);
            let released = store.insert(key, config);
            &&& released.contains_key(key)
            &&& released[key] == config
            &&& released.remove(key) == store.remove(key)
        }),
{
    let key = config_key(config.vendor_id, config.product_id);
    assert(store.insert(key, config).remove(key) =~= store.remove(key));
}

/// Filing by USB ids keeps every definition under its own ids, and so does taking one out.
pub proof fn lemma_store_filed_by_ids(store: Map<u32, Config>, config: Config, key: u32)
    requires
        filed_by_ids(store),
    ensures
        filed_by_ids(store.insert(config_key(config.vendor_id, config.product_id), config)),
        filed_by_ids(store.remove(key)),
{
}


#[verifier::external_type_specification]
#[verifier::external_body]
#[verifier::reject_recursive_types(K)]
#[verifier::reject_recursive_types(V)]
#[verifier::reject_recursive_types(S)]
pub struct ExIndexMap<K, V, S>(IndexMap<K, V, S>);

/// The entries of an `IndexMap` of keyboards, in the map's order: device id, definition.
pub uninterp spec fn keyboard_entries(map: IndexMap<u64, Config>) -> Seq<(u64, Config)>;

/// No device id occurs twice.
pub open spec fn ids_unique(entries: Seq<(u64, Config)>) -> bool {
    forall|i: int, j: int|
        0 <= i < j < entries.len() ==> (#[trigger] entries[i]).0 != (#[trigger] entries[j]).0
}

/// `IndexMap::new`: a map with no entries.
#[verifier::external_body]
fn keyboard_map_new() -> (map: IndexMap<u64, Config>)
    ensures
        keyboard_entries(map) == Seq::<(u64, Config)>::empty(),
{
    IndexMap::new()
}

/// `IndexMap::len`: the number of entries.
#[verifier::external_body]
fn keyboard_map_len(map: &IndexMap<u64, Config>) -> (n: usize)
    ensures
        n == keyboard_entries(*map).len(),
{
    map.len()
}

/// `IndexMap::get_index`: the value of the entry at position `index`, if there is one.
#[verifier::external_body]
fn keyboard_map_get_index(map: &IndexMap<u64, Config>, index: usize) -> (config: Option<&Config>)
    ensures
        match config {
            Some(c) => index < keyboard_entries(*map).len() && *c == keyboard_entries(
                *map,
            )[index as int].1,
            None => index >= keyboard_entries(*map).len(),
        },
{
    map.get_index(index).map(|(_, config)| config)
}

/// `IndexMap::get_index_of`: the position of the entry with key `id`, if there is one;
/// keys of an `IndexMap` are distinct.
#[verifier::external_body]
fn keyboard_map_get_index_of(map: &IndexMap<u64, Config>, id: u64) -> (index: Option<usize>)
    ensures
        match index {
            Some(p) => p < keyboard_entries(*map).len() && keyboard_entries(*map)[p as int].0
                == id && forall|q: int|
                0 <= q < keyboard_entries(*map).len() && q != p ==> keyboard_entries(*map)[q].0
                    != id,
            None => forall|q: int|
                0 <= q < keyboard_entries(*map).len() ==> keyboard_entries(*map)[q].0 != id,
        },
{
    map.get_index_of(&id)
}

/// `IndexMap::insert`: where an entry with key `id` exists, its value becomes `config` in
/// place and the old value is returned; otherwise the entry is added last.
#[verifier::external_body]
fn keyboard_map_insert(map: &mut IndexMap<u64, Config>, id: u64, config: Config) -> (previous: Option<Config>)
    ensures
        ids_unique(keyboard_entries(*old(map))),
        if exists|p: int| connected_at(keyboard_entries(*old(map)), id, p) {
            let p = choose|p: int| connected_at(keyboard_entries(*old(map)), id, p);
            &&& keyboard_entries(*final(map)) == keyboard_entries(*old(map)).update(p, (id, config))
            &&& previous == Some(keyboard_entries(*old(map))[p].1)
        } else {
            &&& keyboard_entries(*final(map)) == keyboard_entries(*old(map)).push((id, config))
            &&& previous is None
        },
{
    map.insert(id, config)
}

/// `IndexMap::shift_remove`: where an entry with key `id` exists, it is removed, the
/// entries after it keeping their order, and its value is returned.
#[verifier::external_body]
fn keyboard_map_shift_remove(map: &mut IndexMap<u64, Config>, id: u64) -> (removed: Option<Config>)
    ensures
        ids_unique(keyboard_entries(*old(map))),
        if exists|p: int| connected_at(keyboard_entries(*old(map)), id, p) {
            let p = choose|p: int| connected_at(keyboard_entries(*old(map)), id, p);
            &&& keyboard_entries(*final(map)) == keyboard_entries(*old(map)).remove(p)
            &&& removed == Some(keyboard_entries(*old(map))[p].1)
        } else {
            &&& keyboard_entries(*final(map)) == keyboard_entries(*old(map))
            &&& removed is None
        },
{
    map.shift_remove(&id)
}

/// The keyboards that are connected, in the order in which they connected: a keyboard's
/// position is its device index. Each has a device id, which the caller gives, and the
/// definition that it serves.
pub struct ConnectedKeyboards {
    entries: IndexMap<u64, Config>,
}

impl View for ConnectedKeyboards {
    type V = Seq<(u64, Config)>;

    closed spec fn view(&self) -> Seq<(u64, Config)> {
        keyboard_entries(self.entries)
    }
}

/// The USB-id key of the definition that a connected keyboard serves.
pub open spec fn entry_key(entry: (u64, Config)) -> u32 {
    config_key(entry.1.vendor_id, entry.1.product_id)
}

/// A device id is connected at position `p`.
pub open spec fn connected_at(connected: Seq<(u64, Config)>, id: u64, p: int) -> bool {
    0 <= p < connected.len() && connected[p].0 == id
}

/// Each keyboard model is configured once: definitions wait in the store under their own
/// USB ids, no device id is connected twice, no two connected keyboards serve the same
/// USB ids, and no definition for connected USB ids also waits in the store.
pub open spec fn configured_once(store: Map<u32, Config>, connected: Seq<(u64, Config)>) -> bool {
    &&& filed_by_ids(store)
    &&& forall|i: int, j: int|
        0 <= i < j < connected.len() ==> (#[trigger] connected[i]).0 != (#[trigger] connected[j]).0
            && entry_key(connected[i]) != entry_key(connected[j])
    &&& forall|i: int|
        0 <= i < connected.len() ==> !store.contains_key(entry_key(#[trigger] connected[i]))
}

impl ConnectedKeyboards {
    /// No keyboard connected.
    pub fn new() -> (keyboards: ConnectedKeyboards)
        ensures
            keyboards@ == Seq::<(u64, Config)>::empty(),
    {
        ConnectedKeyboards { entries: keyboard_map_new() }
    }

    /// The number of connected keyboards.
    pub fn len(&self) -> (n: usize)
        ensures
            n == self@.len(),
    {
        keyboard_map_len(&self.entries)
    }

    /// The definition that the keyboard with device index `index` serves.
    pub fn config(&self, index: usize) -> (config: Option<&Config>)
        ensures
            match config {
                Some(c) => index < self@.len() && *c == self@[index as int].1,
                None => index >= self@.len(),
            },
    {
        keyboard_map_get_index(&self.entries, index)
    }

    /// The device index of the keyboard with device id `id`, if it is connected.
    pub fn position(&self, id: u64) -> (index: Option<usize>)
        ensures
            match index {
                Some(p) => connected_at(self@, id, p as int),
                None => forall|q: int| !connected_at(self@, id, q),
            },
    {
        keyboard_map_get_index_of(&self.entries, id)
    }
}

/// With no keyboard connected yet, each model is configured once as soon as the store files
/// every definition under its own USB ids.
pub proof fn lemma_configured_once_at_start(store: Map<u32, Config>)
    requires
        filed_by_ids(store),
    ensures
        configured_once(store, Seq::<(u64, Config)>::empty()),
{
}

/// What a device connecting makes of the store and the connected keyboards: where the
/// device is compatible and its definition waits in the store, the definition (with the
/// device's manufacturer as vendor) leaves the store and the keyboard joins the connected
/// ones, at the end, or in place of a keyboard with the same device id; otherwise nothing
/// changes.
pub open spec fn connect_outcome(
    store: Map<u32, Config>,
    connected: Seq<(u64, Config)>,
    id: u64,
    device: HidDevice,
    new_store: Map<u32, Config>,
    new_connected: Seq<(u64, Config)>,
) -> bool {
    let key = config_key(device.vendor_id, device.product_id);
    if is_compatible_device(&device) && store.contains_key(key) {
        &&& new_store == store.remove(key)
        &&& if exists|p: int| connected_at(connected, id, p) {
            let p = choose|p: int| connected_at(connected, id, p);
            &&& new_connected == connected.update(p, (id, new_connected[p].1))
            &&& serves_device(new_connected[p].1, store[key], &device)
        } else {
            &&& new_connected == connected.push((id, new_connected.last().1))
            &&& serves_device(new_connected.last().1, store[key], &device)
        }
    } else {
        &&& new_store == store
        &&& new_connected == connected
    }
}

/// What a device disconnecting makes of the store and the connected keyboards: where a
/// keyboard with its device id is connected, it leaves the connected ones (the keyboards
/// after it move up one device index) and its definition returns to the store; otherwise
/// nothing changes.
pub open spec fn disconnect_outcome(
    store: Map<u32, Config>,
    connected: Seq<(u64, Config)>,
    id: u64,
    new_store: Map<u32, Config>,
    new_connected: Seq<(u64, Config)>,
) -> bool {
    if exists|p: int| connected_at(connected, id, p) {
        let p = choose|p: int| connected_at(connected, id, p);
        &&& new_connected == connected.remove(p)
        &&& new_store == store.insert(entry_key(connected[p]), connected[p].1)
    } else {
        &&& new_store == store
        &&& new_connected == connected
    }
}

/// A device connecting keeps each model configured once.
pub proof fn lemma_connect_keeps_configured_once(
    store: Map<u32, Config>,
    connected: Seq<(u64, Config)>,
    id: u64,
    device: HidDevice,
    new_store: Map<u32, Config>,
    new_connected: Seq<(u64, Config)>,
)
    requires
        configured_once(store, connected),
        connect_outcome(store, connected, id, device, new_store, new_connected),
    ensures
        configured_once(new_store, new_connected),
{
    let key = config_key(device.vendor_id, device.product_id);
    if is_compatible_device(&device) && store.contains_key(key) {
        assert(key == config_key(store[key].vendor_id, store[key].product_id));
        lemma_store_filed_by_ids(store, store[key], key);
        if exists|p: int| connected_at(connected, id, p) {
            let p = choose|p: int| connected_at(connected, id, p);
            assert(entry_key(new_connected[p]) == key);
            assert forall|i: int| 0 <= i < new_connected.len() implies !new_store.contains_key(
                entry_key(#[trigger] new_connected[i]),
            ) by {
                if i != p {
                    assert(new_connected[i] == connected[i]);
                }
            }
            assert forall|i: int, j: int| 0 <= i < j < new_connected.len() implies (
            #[trigger] new_connected[i]).0 != (#[trigger] new_connected[j]).0 && entry_key(
                new_connected[i],
            ) != entry_key(new_connected[j]) by {
                if i == p {
                    assert(new_connected[j] == connected[j]);
                    assert(!store.contains_key(entry_key(connected[j])));
                } else if j == p {
                    assert(new_connected[i] == connected[i]);
                    assert(!store.contains_key(entry_key(connected[i])));
                } else {
                    assert(new_connected[i] == connected[i]);
                    assert(new_connected[j] == connected[j]);
                }
            }
        } else {
            let n = connected.len() as int;
            assert(entry_key(new_connected[n]) == key);
            assert forall|i: int| 0 <= i < new_connected.len() implies !new_store.contains_key(
                entry_key(#[trigger] new_connected[i]),
            ) by {
                if i < n {
                    assert(new_connected[i] == connected[i]);
                }
            }
            assert forall|i: int, j: int| 0 <= i < j < new_connected.len() implies (
            #[trigger] new_connected[i]).0 != (#[trigger] new_connected[j]).0 && entry_key(
                new_connected[i],
            ) != entry_key(new_connected[j]) by {
                assert(new_connected[i] == connected[i]);
                if j == n {
                    assert(!connected_at(connected, id, i));
                    assert(!store.contains_key(entry_key(connected[i])));
                } else {
                    assert(new_connected[j] == connected[j]);
                }
            }
        }
    }
}

/// A device disconnecting keeps each model configured once.
pub proof fn lemma_disconnect_keeps_configured_once(
    store: Map<u32, Config>,
    connected: Seq<(u64, Config)>,
    id: u64,
    new_store: Map<u32, Config>,
    new_connected: Seq<(u64, Config)>,
)
    requires
        configured_once(store, connected),
        disconnect_outcome(store, connected, id, new_store, new_connected),
    ensures
        configured_once(new_store, new_connected),
{
    if exists|p: int| connected_at(connected, id, p) {
        let p = choose|p: int| connected_at(connected, id, p);
        let e = connected[p];
        assert forall|i: int| 0 <= i < new_connected.len() implies !new_store.contains_key(
            entry_key(#[trigger] new_connected[i]),
        ) by {
            if i < p {
                assert(new_connected[i] == connected[i]);
            } else {
                assert(new_connected[i] == connected[i + 1]);
            }
        }
        assert forall|i: int, j: int| 0 <= i < j < new_connected.len() implies (
        #[trigger] new_connected[i]).0 != (#[trigger] new_connected[j]).0 && entry_key(
            new_connected[i],
        ) != entry_key(new_connected[j]) by {
            let oi = if i < p { i } else { i + 1 };
            let oj = if j < p { j } else { j + 1 };
            assert(new_connected[i] == connected[oi]);
            assert(new_connected[j] == connected[oj]);
        }
        lemma_store_filed_by_ids(store, e.1, 0);
    }
}

/// A device connects (see [`connect_outcome`]). Returns whether the keyboard joined.
/// Configuring each model once is kept.
pub fn connect_device(
    store: &mut ConfigStore,
    keyboards: &mut ConnectedKeyboards,
    id: u64,
    device: &HidDevice,
) -> (joined: bool)
    ensures
        joined == (is_compatible_device(device) && old(store)@.contains_key(
            config_key(device.vendor_id, device.product_id),
        )),
        connect_outcome(old(store)@, old(keyboards)@, id, *device, final(store)@, final(keyboards)@),
        configured_once(old(store)@, old(keyboards)@) ==> configured_once(final(store)@, final(keyboards)@),
{
    let ghost old_store = store@;
    let ghost old_connected = keyboards@;
    let joined = match claim_config(store, device) {
        Some(config) => {
            let ghost c = config;
            let _ = keyboard_map_insert(&mut keyboards.entries, id, config);
            proof {
                if exists|p: int| connected_at(old_connected, id, p) {
                    let p = choose|p: int| connected_at(old_connected, id, p);
                    assert(keyboards@ =~= old_connected.update(p, (id, c)));
                } else {
                    assert(keyboards@ =~= old_connected.push((id, c)));
                }
            }
            true
        },
        None => false,
    };
    proof {
        if configured_once(old_store, old_connected) {
            lemma_connect_keeps_configured_once(
                old_store,
                old_connected,
                id,
                *device,
                store@,
                keyboards@,
            );
        }
    }
    joined
}

/// A device disconnects (see [`disconnect_outcome`]). Returns whether a keyboard left.
/// Configuring each model once is kept.
pub fn disconnect_device(store: &mut ConfigStore, keyboards: &mut ConnectedKeyboards, id: u64) -> (left: bool)
    ensures
        left == exists|p: int| connected_at(old(keyboards)@, id, p),
        disconnect_outcome(old(store)@, old(keyboards)@, id, final(store)@, final(keyboards)@),
        configured_once(old(store)@, old(keyboards)@) ==> configured_once(final(store)@, final(keyboards)@),
{
    let ghost old_store = store@;
    let ghost old_connected = keyboards@;
    let left = match keyboard_map_shift_remove(&mut keyboards.entries, id) {
        Some(config) => {
            release_config(store, config);
            true
        },
        None => false,
    };
    proof {
        if configured_once(old_store, old_connected) {
            lemma_disconnect_keeps_configured_once(old_store, old_connected, id, store@, keyboards@);
        }
    }
    left
}

/// A device connecting, with what the server read of it (none where no readable interface
/// of it was found), or a device disconnecting; each by its device id.
pub enum DeviceEvent {
    Connected(u64, Option<HidDevice>),
    Disconnected(u64),
}

/// What a device event makes of the store and the connected keyboards.
pub open spec fn event_outcome(
    store: Map<u32, Config>,
    connected: Seq<(u64, Config)>,
    event: DeviceEvent,
    new_store: Map<u32, Config>,
    new_connected: Seq<(u64, Config)>,
) -> bool {
    match event {
        DeviceEvent::Connected(id, Some(device)) => connect_outcome(
            store,
            connected,
            id,
            device,
            new_store,
            new_connected,
        ),
        DeviceEvent::Connected(_, None) => new_store == store && new_connected == connected,
        DeviceEvent::Disconnected(id) => disconnect_outcome(
            store,
            connected,
            id,
            new_store,
            new_connected,
        ),
    }
}

/// Whether a device event changes which keyboards are connected: a compatible device whose
/// definition waits connects, or a connected keyboard disconnects.
pub open spec fn event_changes(
    store: Map<u32, Config>,
    connected: Seq<(u64, Config)>,
    event: DeviceEvent,
) -> bool {
    match event {
        DeviceEvent::Connected(_, Some(device)) => is_compatible_device(&device)
            && store.contains_key(config_key(device.vendor_id, device.product_id)),
        DeviceEvent::Connected(_, None) => false,
        DeviceEvent::Disconnected(id) => exists|p: int| connected_at(connected, id, p),
    }
}

/// Handles a device event. Returns whether the connected keyboards changed (and clients
/// are to be told). Configuring each model once is kept.
pub fn handle_device_event(
    store: &mut ConfigStore,
    keyboards: &mut ConnectedKeyboards,
    event: &DeviceEvent,
) -> (changed: bool)
    ensures
        changed == event_changes(old(store)@, old(keyboards)@, *event),
        event_outcome(old(store)@, old(keyboards)@, *event, final(store)@, final(keyboards)@),
        configured_once(old(store)@, old(keyboards)@) ==> configured_once(final(store)@, final(keyboards)@),
{
    match event {
        DeviceEvent::Connected(id, Some(device)) => connect_device(store, keyboards, *id, device),
        DeviceEvent::Connected(_, None) => false,
        DeviceEvent::Disconnected(id) => disconnect_device(store, keyboards, *id),
    }
}

/// Each step of `states` is what the event of the same index makes of the step before.
pub open spec fn follows_events(
    events: Seq<DeviceEvent>,
    states: Seq<(Map<u32, Config>, Seq<(u64, Config)>)>,
) -> bool {
    &&& states.len() == events.len() + 1
    &&& forall|i: int|
        0 <= i < events.len() ==> event_outcome(
            states[i].0,
            states[i].1,
            #[trigger] events[i],
            states[i + 1].0,
            states[i + 1].1,
        )
}

proof fn lemma_configured_once_at(
    events: Seq<DeviceEvent>,
    states: Seq<(Map<u32, Config>, Seq<(u64, Config)>)>,
    k: int,
)
    requires
        follows_events(events, states),
        configured_once(states[0].0, states[0].1),
        0 <= k < states.len(),
    ensures
        configured_once(states[k].0, states[k].1),
    decreases k,
{
    if k > 0 {
        lemma_configured_once_at(events, states, k - 1);
        let event = events[k - 1];
        let (store, connected) = states[k - 1];
        let (new_store, new_connected) = states[k];
        match event {
            DeviceEvent::Connected(id, Some(device)) => {
                lemma_connect_keeps_configured_once(
                    store,
                    connected,
                    id,
                    device,
                    new_store,
                    new_connected,
                );
            },
            DeviceEvent::Connected(_, None) => {},
            DeviceEvent::Disconnected(id) => {
                lemma_disconnect_keeps_configured_once(
                    store,
                    connected,
                    id,
                    new_store,
                    new_connected,
                );
            },
        }
    }
}

/// Through any run of device events that starts with no keyboard connected and every
/// definition filed under its own USB ids, each keyboard model stays configured once: after
/// every event, a definition waits in the store or serves one connected keyboard, never
/// both, and no two connected keyboards share a device id or USB ids.
pub proof fn lemma_configured_once_through_events(
    events: Seq<DeviceEvent>,
    states: Seq<(Map<u32, Config>, Seq<(u64, Config)>)>,
)
    requires
        follows_events(events, states),
        filed_by_ids(states[0].0),
        states[0].1.len() == 0,
    ensures
        forall|i: int| 0 <= i < states.len() ==> configured_once(#[trigger] states[i].0, states[i].1),
{
    assert(states[0].1 =~= Seq::<(u64, Config)>::empty());
    lemma_configured_once_at_start(states[0].0);
    assert forall|i: int| 0 <= i < states.len() implies configured_once(
        #[trigger] states[i].0,
        states[i].1,
    ) by {
        lemma_configured_once_at(events, states, i);
    }
}

} // verus!
