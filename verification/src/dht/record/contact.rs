//! The contact record a device publishes in the DHT: its signed device list
//! and the relay through which it can be reached.
//!
//! Wire form: `[list_len: u16 BE] [device list] [relay address] [relay_id: u128 BE]`.

use vstd::prelude::*;
use crate::identity::devices::{DeviceList, DeviceListView, device_list_wire, parse_device_list,
    lemma_device_list_roundtrip, certificate_encodable, MAX_DEVICES};
use crate::network::addr::{PeerAddr, addr_wire, parse_addr, lemma_addr_roundtrip, write_addr, read_addr};
use crate::protocol::wire::{be_u16, be_u128, u16_of_be, u128_of_be, lemma_u16_be_roundtrip, lemma_u128_be_roundtrip,
    push_u16, push_u128, push_all, read_u16, read_u128, copy_range};

verus! {

/// The shortest record that is read at all.
pub const MIN_CONTACT_LEN: usize = 153;

pub struct ContactRecord {
    /// Certificates linking this device's keys to the master identity.
    pub device_list: DeviceList,
    /// Address of the relay this device is registered with.
    pub relay_addr: PeerAddr,
    /// The device's ID on that relay.
    pub relay_id: u128,
}

pub struct ContactView {
    pub device_list: DeviceListView,
    pub relay_addr: PeerAddr,
    pub relay_id: u128,
}

impl View for ContactRecord {
    type V = ContactView;

    open spec fn view(&self) -> ContactView {
        ContactView { device_list: self.device_list@, relay_addr: self.relay_addr, relay_id: self.relay_id }
    }
}

pub open spec fn contact_wire(c: ContactView) -> Seq<u8> {
    let list = device_list_wire(c.device_list);
    be_u16(list.len() as u16) + list + addr_wire(c.relay_addr) + be_u128(c.relay_id)
}

/// The device-list length that a record announces.
pub open spec fn announced_list_len(b: Seq<u8>) -> int {
    u16_of_be(b.subrange(0, 2)) as int
}

/// A record whose device list is well formed and ends the bytes, leaving no
/// address to read.
pub open spec fn ends_after_list(b: Seq<u8>) -> bool {
    &&& b.len() >= MIN_CONTACT_LEN
    &&& b.len() == 2 + announced_list_len(b)
    &&& list_in(b.subrange(2, b.len() as int)) is Some
}

/// The device list that `b` holds, read as `parse_device_list` reads it.
#[verifier::opaque]
pub open spec fn list_in(b: Seq<u8>) -> Option<DeviceListView> {
    parse_device_list(b)
}

/// What decoding `b` as a contact record yields; bytes after the relay ID are ignored.
pub open spec fn parse_contact(b: Seq<u8>) -> Option<ContactView> {
    if b.len() < MIN_CONTACT_LEN {
        None
    } else {
        let n = announced_list_len(b);
        if b.len() < 2 + n {
            None
        } else {
            match list_in(b.subrange(2, 2 + n)) {
                None => None,
                Some(list) => match parse_addr(b.subrange(2 + n, b.len() as int)) {
                    None => None,
                    Some((addr, rest)) => if rest.len() < 16 {
                        None
                    } else {
                        Some(ContactView { device_list: list, relay_addr: addr, relay_id: u128_of_be(rest.subrange(0, 16)) })
                    },
                },
            }
        }
    }
}

/// A record is read back from its wire form when its device list is
/// encodable and holds at least one device (an empty list makes the record
/// shorter than any record that is read).
pub proof fn lemma_contact_roundtrip(c: ContactView)
    requires
        c.device_list.master_signature.len() == 64,
        1 <= c.device_list.devices.len() <= MAX_DEVICES,
        forall|i: int| 0 <= i < c.device_list.devices.len() ==> certificate_encodable(#[trigger] c.device_list.devices[i]),
    ensures
        parse_contact(contact_wire(c)) == Some(c),
{
    let list = device_list_wire(c.device_list);
    let n = list.len() as int;
    assert(200 <= n <= 712) by {
        crate::identity::devices::lemma_device_list_wire_len(c.device_list);
        let k = c.device_list.devices.len();
        assert(200 <= 72 + 128 * k <= 712) by (nonlinear_arith)
            requires 1 <= k <= 5;
    }
    assert(list_in(list) == Some(c.device_list)) by {
        reveal(list_in);
        lemma_device_list_roundtrip(c.device_list);
    }
    let w = contact_wire(c);
    lemma_u16_be_roundtrip(n as u16);
    assert(w.subrange(0, 2) =~= be_u16(n as u16));
    assert(w.subrange(2, 2 + n) =~= list);
    let tail = be_u128(c.relay_id);
    assert(w.subrange(2 + n, w.len() as int) =~= addr_wire(c.relay_addr) + tail);
    lemma_addr_roundtrip(c.relay_addr, tail);
    lemma_u128_be_roundtrip(c.relay_id);
    assert(tail.subrange(0, 16) =~= tail);
}

impl ContactRecord {
    pub fn new(device_list: DeviceList, relay_addr: PeerAddr, relay_id: u128) -> (r: Self)
        ensures
            r@ == (ContactView { device_list: device_list@, relay_addr, relay_id }),
    {
        ContactRecord { device_list, relay_addr, relay_id }
    }

    pub fn serialize(&self) -> (r: Vec<u8>)
        ensures
            r@ == contact_wire(self@),
    {
        let list_bytes = self.device_list.serialize();
        let mut bytes: Vec<u8> = Vec::new();
        push_u16(&mut bytes, list_bytes.len() as u16);
        push_all(&mut bytes, list_bytes.as_slice());
        write_addr(&self.relay_addr, &mut bytes);
        push_u128(&mut bytes, self.relay_id);
        assert(bytes@ =~= contact_wire(self@));
        bytes
    }

    /// Whether `bytes` hold a well-formed device list that ends them, with
    /// no address after it: the one form `from_serialized` does not take.
    pub fn list_fills(bytes: &[u8]) -> (r: bool)
        ensures
            r == ends_after_list(bytes@),
    {
        if bytes.len() < MIN_CONTACT_LEN {
            return false;
        }
        let list_len = read_u16(bytes, 0) as usize;
        if bytes.len() - 2 != list_len {
            return false;
        }
        let list_bytes = copy_range(bytes, 2, list_len);
        assert(list_bytes@ =~= bytes@.subrange(2, bytes@.len() as int));
        proof {
            reveal(list_in);
        }
        DeviceList::from_serialized(list_bytes).is_ok()
    }

    pub fn from_serialized(bytes: Vec<u8>) -> (r: Result<Self, String>)
        requires
            !ends_after_list(bytes@),
        ensures
            match r {
                Ok(c) => parse_contact(bytes@) == Some(c@),
                Err(_) => parse_contact(bytes@) is None,
            },
    {
        let b = bytes.as_slice();
        let ghost bb = b@;
        if b.len() < MIN_CONTACT_LEN {
            return Err("contact record too short".to_string());
        }
        let list_len = read_u16(b, 0) as usize;
        if b.len() - 2 < list_len {
            return Err("contact record truncated at device list".to_string());
        }
        let list_bytes = copy_range(b, 2, list_len);
        assert(list_bytes@ =~= bb.subrange(2, 2 + list_len));
        let device_list = match DeviceList::from_serialized(list_bytes) {
            Ok(l) => l,
            Err(_) => {
                proof {
                    reveal(list_in);
                }
                return Err("bad device list".to_string());
            },
        };
        proof {
            reveal(list_in);
        }
        let cursor = 2 + list_len;
        assert(cursor < b.len()) by {
            if cursor == b.len() {
                assert(bb.subrange(2, bb.len() as int) =~= bb.subrange(2, 2 + list_len));
            }
        }
        let (relay_addr, relay_start) = match read_addr(b, cursor) {
            Some(v) => v,
            None => {
                return Err("contact record truncated or unknown address kind".to_string());
            },
        };
        if b.len() - relay_start < 16 {
            return Err("contact record truncated at relay id".to_string());
        }
        let relay_id = read_u128(b, relay_start);
        assert(bb.subrange(relay_start as int, bb.len() as int).subrange(0, 16) =~= bb.subrange(relay_start as int, relay_start + 16));
        Ok(ContactRecord { device_list, relay_addr, relay_id })
    }
}

} // verus!
