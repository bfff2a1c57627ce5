//! Shared application state: the wireless link manager, the virtual
//! port provisioner, and the resolved companion port name, aggregated
//! so the command surface observes one consistent snapshot. The
//! surrounding application holds a value of this behind its lock and
//! serializes command-surface operations on it.

use vstd::prelude::*;
use crate::ble::{BleManager, BridgeError, Device, EntryData, contains_id, device_views, devices_of, find_id};
use crate::port::PortManager;

verus! {

/// The state every command-surface operation works on.
pub struct AppState {
    pub ble_manager: BleManager,
    pub port_manager: PortManager,
    pub other_port: Option<String>,
}

/// The view of the recorded companion port name.
pub open spec fn opt_string_view(o: Option<String>) -> Option<Seq<char>> {
    match o {
        Some(s) => Some(s@),
        None => None,
    }
}

impl AppState {
    /// Fresh state: empty registry, fresh provisioner, no companion
    /// name yet.
    pub fn new() -> (r: Self)
        ensures
            r.ble_manager@ == Seq::<EntryData>::empty(),
            r.ble_manager.wf(),
            r.port_manager.resource_path_view() is None,
            r.other_port is None,
    {
        AppState {
            ble_manager: BleManager::new(),
            port_manager: PortManager::new(),
            other_port: None,
        }
    }

    /// Record where the driver's control executable lives.
    pub fn set_resource_path(&mut self, resource_path: String)
        ensures
            final(self).port_manager.resource_path_view() == Some(resource_path@),
            final(self).ble_manager == old(self).ble_manager,
            final(self).other_port == old(self).other_port,
    {
        self.port_manager.set_resource_path(resource_path);
    }

    /// Record the resolved companion port name once startup has
    /// resolved it; the startup sequencing requires this before the
    /// forwarding loops begin, so `get_other_port` never observes a
    /// not-yet-resolved value as a false negative.
    pub fn set_other_port(&mut self, name: String)
        ensures
            final(self).other_port == Some(name),
            final(self).ble_manager == old(self).ble_manager,
            final(self).port_manager == old(self).port_manager,
    {
        self.other_port = Some(name);
    }

    /// The companion port name, exactly as recorded: `None` before
    /// startup completes, and afterwards the resolved name — possibly
    /// empty when the driver's output named no companion slot.
    pub fn get_other_port(&self) -> (r: Option<String>)
        ensures
            opt_string_view(r) == opt_string_view(self.other_port),
    {
        match &self.other_port {
            Some(p) => Some(p.clone()),
            None => None,
        }
    }

    /// Resolve a connect request: the handle to command the radio
    /// with, or the not-found error exactly when the id is
    /// unregistered — in which case no radio command is issued.
    pub fn connect(&self, id: &String) -> (r: Result<u64, BridgeError>)
        ensures
            match r {
                Ok(h) => contains_id(self.ble_manager@, id@) && h == self.ble_manager@[find_id(
                    self.ble_manager@,
                    id@,
                )].handle,
                Err(e) => e == BridgeError::NotFoundError && !contains_id(
                    self.ble_manager@,
                    id@,
                ),
            },
    {
        self.ble_manager.connect_device(id)
    }

    /// Resolve a disconnect request, by the same lookup.
    pub fn disconnect(&self, id: &String) -> (r: Result<u64, BridgeError>)
        ensures
            match r {
                Ok(h) => contains_id(self.ble_manager@, id@) && h == self.ble_manager@[find_id(
                    self.ble_manager@,
                    id@,
                )].handle,
                Err(e) => e == BridgeError::NotFoundError && !contains_id(
                    self.ble_manager@,
                    id@,
                ),
            },
    {
        self.ble_manager.disconnect_device(id)
    }

    /// A snapshot of all registered devices, in registration order.
    pub fn get_devices(&self) -> (r: Vec<Device>)
        ensures
            device_views(r@) == devices_of(self.ble_manager@),
    {
        self.ble_manager.get_devices()
    }
}

} // verus!
