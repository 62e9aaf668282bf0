//! What a client reports to the application, and how a client updates its
//! identity's device list.

use vstd::prelude::*;
use crate::crypto::sign::ed25519_signature;
use crate::identity::certificates::DeviceCertificate;
use crate::identity::devices::{DeviceList, DeviceListView, lists_device, device_list_signed_data, MAX_DEVICES};
use crate::identity::identity::MasterKeyPair;

verus! {

pub enum Event {
    MessageReceived { from: [u8; 32], content: String },
    SessionEstablished { peer: [u8; 32], safety_number: [u8; 32] },
    SessionFailed { peer: [u8; 32], reason: String },
    ContactFound { peer: [u8; 32] },
    ContactFailed { peer: [u8; 32], reason: String },
    DeviceListUpdated { peer: [u8; 32] },
}

impl Event {
    /// The peer the event is about.
    pub fn peer(&self) -> (r: [u8; 32])
        ensures
            r == match self {
                Event::MessageReceived { from, .. } => *from,
                Event::SessionEstablished { peer, .. } => *peer,
                Event::SessionFailed { peer, .. } => *peer,
                Event::ContactFound { peer } => *peer,
                Event::ContactFailed { peer, .. } => *peer,
                Event::DeviceListUpdated { peer } => *peer,
            },
    {
        match self {
            Event::MessageReceived { from, .. } => *from,
            Event::SessionEstablished { peer, .. } => *peer,
            Event::SessionFailed { peer, .. } => *peer,
            Event::ContactFound { peer } => *peer,
            Event::ContactFailed { peer, .. } => *peer,
            Event::DeviceListUpdated { peer } => *peer,
        }
    }
}

pub open spec fn opt_list(l: Option<DeviceList>) -> Option<DeviceListView> {
    match l {
        Some(x) => Some(x@),
        None => None,
    }
}

/// The list an update starts from: the one published in the DHT, else ours.
pub open spec fn update_base(published: Option<DeviceListView>, ours: DeviceListView) -> DeviceListView {
    match published {
        Some(p) => p,
        None => ours,
    }
}

/// Adds this device's certificate `cert` to the newest list known, unless a
/// device with its key is listed already, and then moves the sequence on
/// once more.
pub fn list_with_device(published: Option<DeviceList>, ours: &DeviceList, master: &MasterKeyPair, cert: DeviceCertificate)
    -> (r: Result<DeviceList, String>)
    requires
        ({
            let b = update_base(opt_list(published), ours@);
            &&& b.sequence < u64::MAX
            &&& !lists_device(b, cert@.device_ed25519_pubkey) && b.devices.len() < MAX_DEVICES ==> b.sequence + 1 < u64::MAX
        }),
    ensures
        ({
            let b = update_base(opt_list(published), ours@);
            if lists_device(b, cert@.device_ed25519_pubkey) {
                r matches Ok(l) && l@ == (DeviceListView { sequence: (b.sequence + 1) as u64, ..b })
            } else if b.devices.len() >= MAX_DEVICES {
                r is Err
            } else {
                r matches Ok(l) && l@.sequence == b.sequence + 2 && l@.devices == b.devices.push(cert@)
                    && l@.master_signature == ed25519_signature(
                        master.secret(),
                        device_list_signed_data((b.sequence + 1) as u64, l@.devices),
                    )
            }
        }),
{
    let mut list = match published {
        Some(p) => p,
        None => ours.clone(),
    };
    if !list.contains_active(&cert.device_ed25519_pubkey) {
        match list.add_device(master, cert) {
            Ok(()) => {},
            Err(_) => return Err("failed to add device".to_string()),
        }
    }
    list.sequence = list.sequence + 1;
    Ok(list)
}

/// The list a device that signs in with the seed phrase publishes: the list
/// fetched from the DHT (else a fresh, empty one signed by `master`), with
/// this device's certificate `cert` added unless a device with its key is
/// listed already.
pub fn list_for_device(fetched: Option<DeviceList>, master: &MasterKeyPair, cert: DeviceCertificate)
    -> (r: Result<DeviceList, String>)
    ensures
        ({
            let b = match fetched {
                Some(f) => f@,
                None => DeviceListView {
                    sequence: 0,
                    devices: Seq::empty(),
                    master_signature: ed25519_signature(master.secret(), device_list_signed_data(0, Seq::empty())),
                },
            };
            if lists_device(b, cert@.device_ed25519_pubkey) {
                r matches Ok(l) && l@ == b
            } else if b.devices.len() >= MAX_DEVICES || b.sequence == u64::MAX {
                r is Err
            } else {
                r matches Ok(l) && l@.sequence == b.sequence + 1 && l@.devices == b.devices.push(cert@)
                    && l@.master_signature == ed25519_signature(
                        master.secret(),
                        device_list_signed_data((b.sequence + 1) as u64, l@.devices),
                    )
            }
        }),
{
    let mut list = match fetched {
        Some(f) => f,
        None => DeviceList::new(master),
    };
    if list.contains_active(&cert.device_ed25519_pubkey) {
        return Ok(list);
    }
    if list.sequence == u64::MAX {
        return Err("device list sequence exhausted".to_string());
    }
    match list.add_device(master, cert) {
        Ok(()) => Ok(list),
        Err(_) => Err("failed to add device".to_string()),
    }
}

/// Removes the device at `index` of the newest list known (the last device
/// takes its place) and then moves the sequence on once more.
pub fn list_without_device(published: Option<DeviceList>, ours: &DeviceList, master: &MasterKeyPair, index: usize)
    -> (r: Result<DeviceList, String>)
    requires
        ({
            let b = update_base(opt_list(published), ours@);
            index < b.devices.len() ==> b.sequence + 1 < u64::MAX
        }),
    ensures
        ({
            let b = update_base(opt_list(published), ours@);
            if index >= b.devices.len() {
                r is Err
            } else {
                let key = b.devices[index as int].device_ed25519_pubkey;
                r matches Ok(l) && l@.sequence == b.sequence + 2 && (exists|i: int| {
                    &&& 0 <= i <= index
                    &&& #[trigger] b.devices[i].device_ed25519_pubkey == key
                    &&& forall|k: int| 0 <= k < i ==> b.devices[k].device_ed25519_pubkey != key
                    &&& l@.devices == b.devices.update(i, b.devices.last()).drop_last()
                }) && l@.master_signature == ed25519_signature(
                    master.secret(),
                    device_list_signed_data((b.sequence + 1) as u64, l@.devices),
                )
            }
        }),
{
    let mut list = match published {
        Some(p) => p,
        None => ours.clone(),
    };
    if index >= list.devices.len() {
        return Err("device index out of range".to_string());
    }
    let device_key = list.devices[index].device_ed25519_pubkey;
    let ghost b = list@;
    assert(b.devices[index as int].device_ed25519_pubkey == device_key@);
    match list.remove_device(master, &device_key) {
        Ok(()) => {},
        Err(_) => return Err("failed to remove device".to_string()),
    }
    list.sequence = list.sequence + 1;
    Ok(list)
}

/// How many times a client tries to join the DHT.
pub const JOIN_ATTEMPTS: u32 = 5;

/// How long a client waits between two tries to join, in milliseconds.
pub const JOIN_RETRY_MS: u64 = 500;

/// After join attempt `attempt` (counting from 0) failed: wait this many
/// milliseconds and try again, or give up (`None`) after the last one.
pub fn join_retry_delay(attempt: u32) -> (r: Option<u64>)
    ensures
        r == if attempt + 1 < JOIN_ATTEMPTS { Some(JOIN_RETRY_MS) } else { None::<u64> },
{
    if attempt < JOIN_ATTEMPTS - 1 {
        Some(JOIN_RETRY_MS)
    } else {
        None
    }
}

} // verus!
