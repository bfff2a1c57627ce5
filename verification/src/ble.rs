//! The wireless link manager's verified core: the device registry, the
//! discovery filter, and the per-event decisions of the radio event
//! loop. The radio stack itself is driven outside the library; every
//! decision it needs — whether a discovered device is surfaced, which
//! entry a connect request addresses, which characteristic to
//! subscribe to, what to emit when it is missing — is computed here.

use vstd::prelude::*;
use crate::text::{contains_pat, contains_sub};

verus! {

/// The fixed 128-bit service identifier of the target notification source.
pub const SERVICE_UUID: u128 = 0x0000ffa0_0000_1000_8000_00805f9b34fb;

/// The fixed 128-bit characteristic identifier of the target notification source.
pub const CHARACTERISTIC_UUID: u128 = 0x0000ffa1_0000_1000_8000_00805f9b34fb;

/// The marker substring an advertised name must contain for the device
/// to be surfaced at all.
pub open spec fn name_marker() -> Seq<char> {
    "BioSignal"@
}

/// A discovered wireless device: a stable address string and a
/// human-readable name, immutable once discovered.
pub struct Device {
    pub id: String,
    pub name: String,
}

/// The mathematical value of a `Device`.
pub struct DeviceData {
    pub id: Seq<char>,
    pub name: Seq<char>,
}

impl View for Device {
    type V = DeviceData;

    open spec fn view(&self) -> DeviceData {
        DeviceData { id: self.id@, name: self.name@ }
    }
}

impl Device {
    /// An equal copy of the device.
    pub fn clone(&self) -> (r: Device)
        ensures
            r == *self,
    {
        Device { id: self.id.clone(), name: self.name.clone() }
    }
}

/// The closed vocabulary of the channel between the link manager and
/// the bridge orchestrator. `DeviceNotification` is consumed
/// exclusively by the serial-write path; every other variant is
/// forwarded to the presentation layer.
pub enum BleEvent {
    DevicesDiscovered(Vec<Device>),
    DeviceConnected(Device),
    DeviceDisconnected,
    DeviceUpdated(Device),
    DeviceNotification(Vec<u8>),
    DeviceError(String),
}

/// The failure taxonomy of the bridge.
#[derive(PartialEq, Eq, Structural, Clone, Copy, Debug)]
pub enum BridgeError {
    /// The radio stack is unusable or unreachable.
    AdapterError,
    /// An operation referenced an unregistered device id.
    NotFoundError,
    /// A connected device lacks the expected notification characteristic.
    CharacteristicMissing,
    /// The external driver process exited non-zero or was unreachable.
    DriverCommandError,
    /// The local virtual port could not be opened.
    PortOpenError,
}

impl BridgeError {
    /// The plain message the command surface reports for this error.
    pub fn message(&self) -> (r: &'static str)
        ensures
            *self == BridgeError::NotFoundError ==> r@ == "Device not found"@,
    {
        match self {
            BridgeError::AdapterError => "Radio adapter unavailable",
            BridgeError::NotFoundError => "Device not found",
            BridgeError::CharacteristicMissing => "No characteristic found",
            BridgeError::DriverCommandError => "Driver command failed",
            BridgeError::PortOpenError => "Failed to open port",
        }
    }
}

/// A registry entry: the platform connection handle the surrounding
/// radio code assigned to the peripheral, and the surfaced device.
pub struct RegEntry {
    pub handle: u64,
    pub device: Device,
}

/// The mathematical value of a registry entry.
pub struct EntryData {
    pub handle: u64,
    pub device: DeviceData,
}

impl View for RegEntry {
    type V = EntryData;

    open spec fn view(&self) -> EntryData {
        EntryData { handle: self.handle, device: self.device@ }
    }
}

/// First index at or after `i` whose entry carries `id`; `s.len()`
/// when there is none.
pub open spec fn find_id_from(s: Seq<EntryData>, id: Seq<char>, i: int) -> int
    decreases s.len() - i,
{
    if i < 0 || i >= s.len() {
        s.len() as int
    } else if s[i].device.id == id {
        i
    } else {
        find_id_from(s, id, i + 1)
    }
}

/// Index of the entry carrying `id`; `s.len()` when absent.
pub open spec fn find_id(s: Seq<EntryData>, id: Seq<char>) -> int {
    find_id_from(s, id, 0)
}

/// An entry for `id` is present.
pub open spec fn contains_id(s: Seq<EntryData>, id: Seq<char>) -> bool {
    find_id(s, id) < s.len()
}

/// No two entries carry the same id.
pub open spec fn unique_ids(s: Seq<EntryData>) -> bool {
    forall|i: int, j: int|
        0 <= i < j < s.len() ==> (#[trigger] s[i]).device.id != (#[trigger] s[j]).device.id
}

/// Insert-or-replace keyed by the entry's id: re-discovery overwrites
/// the entry in place, first discovery appends.
pub open spec fn upsert_entry(s: Seq<EntryData>, e: EntryData) -> Seq<EntryData> {
    let i = find_id(s, e.device.id);
    if i < s.len() {
        s.update(i, e)
    } else {
        s.push(e)
    }
}

/// The devices a registry snapshot surfaces, in registration order.
pub open spec fn devices_of(s: Seq<EntryData>) -> Seq<DeviceData> {
    s.map_values(|e: EntryData| e.device)
}

/// The views of a surfaced device list.
pub open spec fn device_views(s: Seq<Device>) -> Seq<DeviceData> {
    s.map_values(|d: Device| d@)
}

/// The first index position is in bounds; it marks an entry carrying
/// `id` unless it is the sentinel, and no earlier index carries `id`.
pub proof fn lemma_find_id_props(s: Seq<EntryData>, id: Seq<char>, i: int)
    requires
        0 <= i <= s.len(),
    ensures
        i <= find_id_from(s, id, i) <= s.len(),
        find_id_from(s, id, i) < s.len() ==> s[find_id_from(s, id, i)].device.id == id,
        forall|j: int| i <= j < find_id_from(s, id, i) ==> (#[trigger] s[j]).device.id != id,
        find_id_from(s, id, i) == s.len() ==> (forall|j: int|
            i <= j < s.len() ==> (#[trigger] s[j]).device.id != id),
    decreases s.len() - i,
{
    if i < s.len() && s[i].device.id != id {
        lemma_find_id_props(s, id, i + 1);
    }
}

/// The name filter: a discovery event is surfaced only when the
/// advertised name exists and contains the marker.
pub open spec fn name_matches(name: Option<Seq<char>>) -> bool {
    match name {
        Some(n) => contains_pat(n, name_marker()),
        None => false,
    }
}

/// The view of an optional advertised name.
pub open spec fn opt_name_view(name: Option<String>) -> Option<Seq<char>> {
    match name {
        Some(n) => Some(n@),
        None => None,
    }
}

/// What one discovery event does to the registry: nothing for a
/// filtered-out name, an upsert keyed by the address for a match.
pub open spec fn discovery_step(
    s: Seq<EntryData>,
    handle: u64,
    id: Seq<char>,
    name: Option<Seq<char>>,
) -> Seq<EntryData> {
    match name {
        Some(n) => if contains_pat(n, name_marker()) {
            upsert_entry(s, EntryData { handle, device: DeviceData { id, name: n } })
        } else {
            s
        },
        None => s,
    }
}

/// A sequence of discovery events folded over the registry, oldest
/// first. Each event is a (handle, address, advertised name) triple.
pub open spec fn discovery_run(
    s: Seq<EntryData>,
    evs: Seq<(u64, Seq<char>, Option<Seq<char>>)>,
) -> Seq<EntryData>
    decreases evs.len(),
{
    if evs.len() == 0 {
        s
    } else {
        discovery_step(
            discovery_run(s, evs.drop_last()),
            evs.last().0,
            evs.last().1,
            evs.last().2,
        )
    }
}

/// Discovery events whose names lack the marker leave the registry
/// unchanged, however many there are and in whatever order.
pub proof fn lemma_unmatched_discoveries_change_nothing(
    s: Seq<EntryData>,
    evs: Seq<(u64, Seq<char>, Option<Seq<char>>)>,
)
    requires
        forall|i: int| 0 <= i < evs.len() ==> !name_matches((#[trigger] evs[i]).2),
    ensures
        discovery_run(s, evs) == s,
    decreases evs.len(),
{
    if evs.len() > 0 {
        lemma_unmatched_discoveries_change_nothing(s, evs.drop_last());
        assert(!name_matches(evs[evs.len() - 1].2));
    }
}

/// The ids a registry snapshot holds.
pub open spec fn id_set(s: Seq<EntryData>) -> Set<Seq<char>> {
    Set::new(|id: Seq<char>| contains_id(s, id))
}

/// A matching discovery upserts exactly its own id: uniqueness of ids
/// is preserved, so every known device appears exactly once, and the
/// known-id set afterwards is the old set plus the discovered id —
/// duplicate discoveries of one id are idempotent on it.
pub proof fn lemma_matching_discovery_upserts(
    s: Seq<EntryData>,
    handle: u64,
    id: Seq<char>,
    name: Seq<char>,
)
    requires
        unique_ids(s),
        contains_pat(name, name_marker()),
    ensures
        unique_ids(discovery_step(s, handle, id, Some(name))),
        id_set(discovery_step(s, handle, id, Some(name))) == id_set(s).insert(id),
        contains_id(s, id) ==> discovery_step(s, handle, id, Some(name)).len() == s.len(),
        !contains_id(s, id) ==> discovery_step(s, handle, id, Some(name)).len() == s.len() + 1,
{
    let e = EntryData { handle, device: DeviceData { id, name } };
    let t = upsert_entry(s, e);
    let i = find_id(s, id);
    lemma_find_id_props(s, id, 0);
    if i < s.len() {
        assert(s[i].device.id == id);
        assert(t == s.update(i, e));
        assert(t.len() == s.len());
        assert(t[i] == e);
        assert forall|x: Seq<char>| contains_id(t, x) <==> (contains_id(s, x) || x == id) by {
            lemma_find_id_props(t, x, 0);
            lemma_find_id_props(s, x, 0);
            if contains_id(s, x) {
                let k = find_id(s, x);
                assert(s[k].device.id == x);
                assert(t[k].device.id == x || k == i);
            }
            if contains_id(t, x) {
                let k = find_id(t, x);
                assert(t[k].device.id == x);
                assert(s[k].device.id == x || k == i);
            }
        }
        assert(id_set(t) =~= id_set(s).insert(id));
    } else {
        assert(t == s.push(e));
        assert(t.len() == s.len() + 1);
        assert(t[s.len() as int] == e);
        assert forall|x: Seq<char>| contains_id(t, x) <==> (contains_id(s, x) || x == id) by {
            lemma_find_id_props(t, x, 0);
            lemma_find_id_props(s, x, 0);
            if contains_id(s, x) {
                let k = find_id(s, x);
                assert(s[k].device.id == x);
                assert(t[k].device.id == x);
            }
            if contains_id(t, x) {
                let k = find_id(t, x);
                assert(t[k].device.id == x);
                if k < s.len() {
                    assert(s[k].device.id == x);
                }
            }
        }
        assert(id_set(t) =~= id_set(s).insert(id));
    }
}

/// A characteristic descriptor as the logic reads it: the identifiers
/// of the service it belongs to and of the characteristic itself.
#[derive(Clone, Copy)]
pub struct CharacteristicInfo {
    pub service: u128,
    pub uuid: u128,
}

/// The characteristic the bridge subscribes to.
pub open spec fn is_target_char(c: CharacteristicInfo) -> bool {
    c.service == SERVICE_UUID && c.uuid == CHARACTERISTIC_UUID
}

/// First index at or after `i` of the target characteristic;
/// `s.len()` when there is none.
pub open spec fn first_target_from(s: Seq<CharacteristicInfo>, i: int) -> int
    decreases s.len() - i,
{
    if i < 0 || i >= s.len() {
        s.len() as int
    } else if is_target_char(s[i]) {
        i
    } else {
        first_target_from(s, i + 1)
    }
}

/// What the radio loop must do after a device reports connected: the
/// events to emit on the bridge channel, whether to disconnect at
/// once, and which characteristic to subscribe to — a forwarding task
/// is spawned exactly when there is one.
pub struct ConnectedDecision {
    /// Emitted on the bridge channel, in order.
    pub events: Vec<BleEvent>,
    /// Disconnect the peripheral immediately.
    pub disconnect: bool,
    /// Subscribe to this characteristic and spawn the
    /// notification-forwarding task; `None` spawns nothing.
    pub subscribe_index: Option<usize>,
}

/// The wireless link manager's registry of known devices, keyed by
/// address, in first-discovery order.
pub struct BleManager {
    devices: Vec<RegEntry>,
}

impl View for BleManager {
    type V = Seq<EntryData>;

    closed spec fn view(&self) -> Seq<EntryData> {
        self.devices@.map_values(|e: RegEntry| e@)
    }
}

impl BleManager {
    /// The registry invariant: every id appears at most once.
    pub open spec fn wf(&self) -> bool {
        unique_ids(self@)
    }

    /// A fresh manager with an empty registry.
    pub fn new() -> (r: Self)
        ensures
            r@ == Seq::<EntryData>::empty(),
            r.wf(),
    {
        let r = BleManager { devices: Vec::new() };
        assert(r@ =~= Seq::<EntryData>::empty());
        r
    }

    fn position_from(&self, id: &String, i: usize) -> (r: usize)
        requires
            i <= self.devices@.len(),
        ensures
            r as int == find_id_from(self@, id@, i as int),
        decreases self.devices@.len() - i,
    {
        if i == self.devices.len() {
            assert(self@.len() == self.devices@.len());
            i
        } else {
            assert(self@[i as int] == self.devices@[i as int]@);
            if self.devices[i].device.id == *id {
                i
            } else {
                self.position_from(id, i + 1)
            }
        }
    }

    /// Look up the registry entry for `id`: its handle, or the
    /// not-found error — exactly when no entry carries the id. The
    /// caller issues a radio command only on success, so an unknown id
    /// produces none.
    pub fn connect_device(&self, id: &String) -> (r: Result<u64, BridgeError>)
        ensures
            match r {
                Ok(h) => contains_id(self@, id@) && h == self@[find_id(self@, id@)].handle,
                Err(e) => e == BridgeError::NotFoundError && !contains_id(self@, id@),
            },
    {
        proof {
            lemma_find_id_props(self@, id@, 0);
        }
        let pos = self.position_from(id, 0);
        if pos < self.devices.len() {
            assert(self@[pos as int] == self.devices@[pos as int]@);
            Ok(self.devices[pos].handle)
        } else {
            Err(BridgeError::NotFoundError)
        }
    }

    /// Look up the registry entry for a disconnect request; the same
    /// resolution as `connect_device`.
    pub fn disconnect_device(&self, id: &String) -> (r: Result<u64, BridgeError>)
        ensures
            match r {
                Ok(h) => contains_id(self@, id@) && h == self@[find_id(self@, id@)].handle,
                Err(e) => e == BridgeError::NotFoundError && !contains_id(self@, id@),
            },
    {
        self.connect_device(id)
    }

    /// A snapshot of all registered devices, in registration order,
    /// independent of connection state.
    pub fn get_devices(&self) -> (r: Vec<Device>)
        ensures
            device_views(r@) == devices_of(self@),
    {
        let mut r: Vec<Device> = Vec::new();
        let mut i: usize = 0;
        while i < self.devices.len()
            invariant
                i <= self.devices@.len(),
                device_views(r@) =~= devices_of(self@.subrange(0, i as int)),
            decreases self.devices@.len() - i,
        {
            assert(self@[i as int] == self.devices@[i as int]@);
            let ghost prior = r@;
            let d = self.devices[i].device.clone();
            assert(d@ == self@[i as int].device);
            r.push(d);
            proof {
                assert(device_views(prior).len() == prior.len());
                assert(devices_of(self@.subrange(0, i as int)).len() == i as int);
                assert(prior.len() == i as int);
                assert(r@ == prior.push(d));
                assert forall|j: int| 0 <= j < r@.len() implies device_views(r@)[j]
                    == devices_of(self@.subrange(0, i as int + 1))[j] by {
                    if j < i as int {
                        assert(device_views(prior)[j] == devices_of(
                            self@.subrange(0, i as int),
                        )[j]);
                        assert(r@[j] == prior[j]);
                    } else {
                        assert(r@[j] == d);
                    }
                }
                assert(device_views(r@) =~= devices_of(self@.subrange(0, i as int + 1)));
            }
            i += 1;
        }
        proof {
            assert(self@.subrange(0, self.devices@.len() as int) =~= self@);
        }
        r
    }

    /// React to one discovery event. A name lacking the marker (or no
    /// name at all) is discarded: the registry is untouched and
    /// nothing is emitted. A matching name upserts the entry keyed by
    /// the address and yields the full current registry contents — the
    /// complete known-device list — for a `DevicesDiscovered` emission.
    pub fn process_discovery(&mut self, handle: u64, id: String, name: Option<String>) -> (r:
        Option<Vec<Device>>)
        requires
            old(self).wf(),
        ensures
            final(self).wf(),
            final(self)@ == discovery_step(old(self)@, handle, id@, opt_name_view(name)),
            match r {
                Some(list) => name_matches(opt_name_view(name)) && device_views(list@)
                    == devices_of(final(self)@),
                None => !name_matches(opt_name_view(name)) && final(self)@ == old(self)@,
            },
    {
        match name {
            None => None,
            Some(n) => {
                if !contains_sub(n.as_str(), "BioSignal") {
                    None
                } else {
                    let ghost prior = self@;
                    let entry = RegEntry { handle, device: Device { id, name: n } };
                    proof {
                        lemma_find_id_props(prior, entry.device.id@, 0);
                        lemma_matching_discovery_upserts(
                            prior,
                            handle,
                            entry.device.id@,
                            entry.device.name@,
                        );
                    }
                    let pos = self.position_from(&entry.device.id, 0);
                    if pos < self.devices.len() {
                        self.devices[pos] = entry;
                    } else {
                        self.devices.push(entry);
                    }
                    assert(self@ =~= upsert_entry(
                        prior,
                        EntryData { handle, device: DeviceData { id: id@, name: n@ } },
                    ));
                    Some(self.get_devices())
                }
            },
        }
    }

    /// React to a connect notification. An unregistered id yields no
    /// decision: under the name filter it cannot occur, and the caller
    /// treats it as a protocol invariant violation. For a known device
    /// without the target characteristic the decision is to disconnect
    /// at once and emit exactly one `DeviceError`, spawning no
    /// forwarding task; with the target characteristic present the
    /// decision is to subscribe to the first match, spawn the
    /// forwarding task, and emit `DeviceConnected` with the device.
    pub fn process_connected(&self, id: &String, characteristics: &Vec<CharacteristicInfo>) -> (r:
        Option<ConnectedDecision>)
        ensures
            match r {
                None => !contains_id(self@, id@),
                Some(d) => contains_id(self@, id@) && {
                    let t = first_target_from(characteristics@, 0);
                    if t < characteristics@.len() {
                        &&& !d.disconnect
                        &&& d.subscribe_index matches Some(k) && k as int == t
                        &&& d.events@.len() == 1
                        &&& d.events@[0] matches BleEvent::DeviceConnected(dev) && dev@
                            == self@[find_id(self@, id@)].device
                    } else {
                        &&& d.disconnect
                        &&& d.subscribe_index is None
                        &&& d.events@.len() == 1
                        &&& d.events@[0] matches BleEvent::DeviceError(m) && m@
                            == "No characteristic found"@
                    }
                },
            },
    {
        proof {
            lemma_find_id_props(self@, id@, 0);
        }
        let pos = self.position_from(id, 0);
        if pos == self.devices.len() {
            return None;
        }
        assert(self@[pos as int] == self.devices@[pos as int]@);
        match Self::find_target(characteristics, 0) {
            Some(k) => {
                let device = self.devices[pos].device.clone();
                let mut events: Vec<BleEvent> = Vec::new();
                events.push(BleEvent::DeviceConnected(device));
                Some(
                    ConnectedDecision { events, disconnect: false, subscribe_index: Some(k) },
                )
            },
            None => {
                let mut events: Vec<BleEvent> = Vec::new();
                events.push(BleEvent::DeviceError("No characteristic found".to_owned()));
                Some(ConnectedDecision { events, disconnect: true, subscribe_index: None })
            },
        }
    }

    fn find_target(characteristics: &Vec<CharacteristicInfo>, i: usize) -> (r: Option<usize>)
        requires
            i <= characteristics@.len(),
        ensures
            match r {
                Some(k) => k as int == first_target_from(characteristics@, i as int)
                    && (k as int) < characteristics@.len(),
                None => first_target_from(characteristics@, i as int)
                    == characteristics@.len(),
            },
        decreases characteristics@.len() - i,
    {
        if i == characteristics.len() {
            None
        } else if characteristics[i].service == SERVICE_UUID && characteristics[i].uuid
            == CHARACTERISTIC_UUID {
            Some(i)
        } else {
            Self::find_target(characteristics, i + 1)
        }
    }
}

} // verus!
