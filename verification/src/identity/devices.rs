//! The signed list of a user's active devices.

use vstd::prelude::*;
use crate::crypto::sign::{ed25519_signature, ed25519_verifies, ed25519_point_valid};
use crate::identity::certificates::{
    DeviceCertificate, CertificateView, certificate_wire, parse_certificate, lemma_certificate_roundtrip,
};
use crate::identity::identity::{MasterKeyPair, UserID};
use crate::protocol::wire::{be_u64, u64_of_be, lemma_u64_be_roundtrip, push_u64, push_all, read_u64, copy_array, copy_range, same_bytes};

verus! {

pub const MAX_DEVICES: usize = 5;

pub struct DeviceList {
    pub sequence: u64,
    pub devices: Vec<DeviceCertificate>,
    pub master_signature: [u8; 64],
}

/// Mathematical value of a device list.
pub struct DeviceListView {
    pub sequence: u64,
    pub devices: Seq<CertificateView>,
    pub master_signature: Seq<u8>,
}

impl View for DeviceList {
    type V = DeviceListView;

    open spec fn view(&self) -> DeviceListView {
        DeviceListView {
            sequence: self.sequence,
            devices: self.devices@.map_values(|c: DeviceCertificate| c@),
            master_signature: self.master_signature@,
        }
    }
}

/// The concatenated wire forms of certificates.
pub open spec fn certificates_wire(ds: Seq<CertificateView>) -> Seq<u8>
    decreases ds.len(),
{
    if ds.len() == 0 {
        Seq::empty()
    } else {
        certificates_wire(ds.drop_last()) + certificate_wire(ds.last())
    }
}

/// The bytes the master key signs: the sequence number and every certificate.
pub open spec fn device_list_signed_data(sequence: u64, ds: Seq<CertificateView>) -> Seq<u8> {
    be_u64(sequence) + certificates_wire(ds)
}

/// Wire form: `[sequence: u64 BE] [signature: 64] [certificates: 128 each]`.
pub open spec fn device_list_wire(l: DeviceListView) -> Seq<u8> {
    be_u64(l.sequence) + l.master_signature + certificates_wire(l.devices)
}

/// The `i`-th 128-byte certificate slot after the 72-byte head.
pub open spec fn certificate_slot(b: Seq<u8>, i: int) -> Seq<u8> {
    b.subrange(72 + 128 * i, 72 + 128 * i + 128)
}

/// What decoding `b` as a device list yields.
pub open spec fn parse_device_list(b: Seq<u8>) -> Option<DeviceListView> {
    if b.len() < 72 {
        None
    } else if (b.len() - 72) % 128 != 0 {
        None
    } else if (b.len() - 72) / 128 > MAX_DEVICES {
        None
    } else if exists|i: int| 0 <= i < (b.len() - 72) / 128 && #[trigger] parse_certificate(certificate_slot(b, i)) is None {
        None
    } else {
        Some(
            DeviceListView {
                sequence: u64_of_be(b.subrange(0, 8)),
                devices: Seq::new(((b.len() - 72) / 128) as nat, |i: int| parse_certificate(certificate_slot(b, i)).unwrap()),
                master_signature: b.subrange(8, 72),
            },
        )
    }
}

/// Whether the list carries the master's signature of its sequence and devices.
pub open spec fn device_list_valid(l: DeviceListView, master_pubkey: Seq<u8>) -> bool {
    ed25519_verifies(master_pubkey, device_list_signed_data(l.sequence, l.devices), l.master_signature)
}

/// Whether a certificate for `pk` is in the list.
pub open spec fn lists_device(l: DeviceListView, pk: Seq<u8>) -> bool {
    exists|i: int| 0 <= i < l.devices.len() && #[trigger] l.devices[i].device_ed25519_pubkey == pk
}

/// A certificate has the field lengths of the wire form and a valid Ed25519 key.
pub open spec fn certificate_encodable(c: CertificateView) -> bool {
    &&& c.device_ed25519_pubkey.len() == 32
    &&& c.device_x25519_pubkey.len() == 32
    &&& c.master_signature.len() == 64
    &&& ed25519_point_valid(c.device_ed25519_pubkey)
}

proof fn lemma_certificates_wire_slots(ds: Seq<CertificateView>)
    requires
        forall|i: int| 0 <= i < ds.len() ==> certificate_encodable(#[trigger] ds[i]),
    ensures
        certificates_wire(ds).len() == 128 * ds.len(),
        forall|i: int| 0 <= i < ds.len() ==> (#[trigger] certificates_wire(ds).subrange(128 * i, 128 * i + 128)) == certificate_wire(ds[i]),
    decreases ds.len(),
{
    if ds.len() > 0 {
        let init = ds.drop_last();
        assert forall|i: int| 0 <= i < init.len() implies certificate_encodable(#[trigger] init[i]) by {
            assert(init[i] == ds[i]);
        }
        lemma_certificates_wire_slots(init);
        lemma_certificate_roundtrip(ds.last());
        let w = certificates_wire(ds);
        assert forall|i: int| 0 <= i < ds.len() implies (#[trigger] w.subrange(128 * i, 128 * i + 128)) == certificate_wire(ds[i]) by {
            if i < init.len() {
                assert(w.subrange(128 * i, 128 * i + 128) =~= certificates_wire(init).subrange(128 * i, 128 * i + 128));
                assert(init[i] == ds[i]);
            } else {
                assert(w.subrange(128 * i, 128 * i + 128) =~= certificate_wire(ds.last()));
            }
        }
    }
}

/// An encodable list takes 72 bytes plus 128 per certificate.
pub proof fn lemma_device_list_wire_len(l: DeviceListView)
    requires
        l.master_signature.len() == 64,
        forall|i: int| 0 <= i < l.devices.len() ==> certificate_encodable(#[trigger] l.devices[i]),
    ensures
        device_list_wire(l).len() == 72 + 128 * l.devices.len(),
{
    lemma_certificates_wire_slots(l.devices);
}

/// Decoding an encoded device list gives it back when it holds at most
/// `MAX_DEVICES` certificates, each with a valid Ed25519 key.
pub proof fn lemma_device_list_roundtrip(l: DeviceListView)
    requires
        l.master_signature.len() == 64,
        l.devices.len() <= MAX_DEVICES,
        forall|i: int| 0 <= i < l.devices.len() ==> certificate_encodable(#[trigger] l.devices[i]),
    ensures
        parse_device_list(device_list_wire(l)) == Some(l),
{
    let w = device_list_wire(l);
    lemma_certificates_wire_slots(l.devices);
    lemma_u64_be_roundtrip(l.sequence);
    assert(w.subrange(0, 8) =~= be_u64(l.sequence));
    assert(w.subrange(8, 72) =~= l.master_signature);
    assert((w.len() - 72) / 128 == l.devices.len()) by (nonlinear_arith)
        requires w.len() == 72 + 128 * l.devices.len();
    assert forall|i: int| 0 <= i < l.devices.len() implies #[trigger] parse_certificate(certificate_slot(w, i)) == Some(l.devices[i]) by {
        assert(certificate_slot(w, i) =~= certificates_wire(l.devices).subrange(128 * i, 128 * i + 128));
        lemma_certificate_roundtrip(l.devices[i]);
    }
    let parsed = parse_device_list(w).unwrap();
    assert(parsed.devices =~= l.devices);
}

fn push_certificates(bytes: &mut Vec<u8>, devices: &Vec<DeviceCertificate>)
    ensures
        final(bytes)@ == old(bytes)@ + certificates_wire(devices@.map_values(|c: DeviceCertificate| c@)),
{
    let ghost start = bytes@;
    let ghost ds = devices@.map_values(|c: DeviceCertificate| c@);
    let mut i: usize = 0;
    while i < devices.len()
        invariant
            ds == devices@.map_values(|c: DeviceCertificate| c@),
            i <= devices@.len(),
            bytes@ == start + certificates_wire(ds.take(i as int)),
        decreases devices@.len() - i,
    {
        let c = devices[i].serialize();
        push_all(bytes, c.as_slice());
        proof {
            assert(ds.take(i + 1).drop_last() =~= ds.take(i as int));
            assert(ds.take(i + 1).last() == devices@[i as int]@);
        }
        i = i + 1;
    }
    assert(ds.take(devices@.len() as int) =~= ds);
}

/// Position of the first certificate for `pk`.
fn find_device(devices: &Vec<DeviceCertificate>, pk: &[u8; 32]) -> (r: Option<usize>)
    ensures
        match r {
            Some(i) => i < devices@.len() && devices@[i as int].device_ed25519_pubkey@ == pk@
                && forall|k: int| 0 <= k < i ==> devices@[k].device_ed25519_pubkey@ != pk@,
            None => forall|k: int| 0 <= k < devices@.len() ==> devices@[k].device_ed25519_pubkey@ != pk@,
        },
{
    let mut i: usize = 0;
    while i < devices.len()
        invariant
            i <= devices@.len(),
            forall|k: int| 0 <= k < i ==> devices@[k].device_ed25519_pubkey@ != pk@,
        decreases devices@.len() - i,
    {
        if same_bytes(devices[i].device_ed25519_pubkey.as_slice(), pk.as_slice()) {
            return Some(i);
        }
        i = i + 1;
    }
    None
}

impl Clone for DeviceList {
    fn clone(&self) -> (r: Self)
        ensures
            r@ == self@,
    {
        let mut devices: Vec<DeviceCertificate> = Vec::new();
        let mut i: usize = 0;
        while i < self.devices.len()
            invariant
                i <= self.devices@.len(),
                devices@ == self.devices@.take(i as int),
            decreases self.devices@.len() - i,
        {
            devices.push(self.devices[i]);
            i = i + 1;
            assert(devices@ =~= self.devices@.take(i as int));
        }
        assert(self.devices@.take(self.devices@.len() as int) =~= self.devices@);
        DeviceList { sequence: self.sequence, devices, master_signature: self.master_signature }
    }
}

impl DeviceList {
    /// Whether a device with this Ed25519 key is in the list.
    pub fn contains_active(&self, device_pubkey: &[u8; 32]) -> (r: bool)
        ensures
            r == lists_device(self@, device_pubkey@),
    {
        let mut i: usize = 0;
        while i < self.devices.len()
            invariant
                i <= self.devices@.len(),
                forall|k: int| 0 <= k < i ==> self.devices@[k].device_ed25519_pubkey@ != device_pubkey@,
            decreases self.devices@.len() - i,
        {
            if same_bytes(self.devices[i].device_ed25519_pubkey.as_slice(), device_pubkey.as_slice()) {
                assert(self@.devices[i as int].device_ed25519_pubkey == device_pubkey@);
                return true;
            }
            i = i + 1;
        }
        proof {
            if lists_device(self@, device_pubkey@) {
                let k = choose|k: int| 0 <= k < self@.devices.len() && #[trigger] self@.devices[k].device_ed25519_pubkey == device_pubkey@;
                assert(self.devices@[k].device_ed25519_pubkey@ != device_pubkey@);
            }
        }
        false
    }

    pub fn signed_data(sequence: u64, devices: &Vec<DeviceCertificate>) -> (r: Vec<u8>)
        ensures
            r@ == device_list_signed_data(sequence, devices@.map_values(|c: DeviceCertificate| c@)),
    {
        let mut bytes: Vec<u8> = Vec::new();
        push_u64(&mut bytes, sequence);
        push_certificates(&mut bytes, devices);
        bytes
    }

    pub fn sign_data(sequence: u64, devices: &Vec<DeviceCertificate>, master: &MasterKeyPair) -> (r: [u8; 64])
        ensures
            r@ == ed25519_signature(master.secret(), device_list_signed_data(sequence, devices@.map_values(|c: DeviceCertificate| c@))),
            master.well_formed() ==> ed25519_verifies(
                master.public(),
                device_list_signed_data(sequence, devices@.map_values(|c: DeviceCertificate| c@)),
                r@,
            ),
    {
        let bytes = Self::signed_data(sequence, devices);
        master.sign(bytes.as_slice())
    }

    /// Whether the list is signed by `master_identity`.
    pub fn verify(&self, master_identity: &UserID) -> (r: bool)
        ensures
            r == device_list_valid(self@, master_identity.public_key@),
    {
        let bytes = Self::signed_data(self.sequence, &self.devices);
        master_identity.verify(bytes.as_slice(), &self.master_signature)
    }

    pub fn serialize(&self) -> (r: Vec<u8>)
        ensures
            r@ == device_list_wire(self@),
    {
        let mut bytes: Vec<u8> = Vec::new();
        push_u64(&mut bytes, self.sequence);
        push_all(&mut bytes, self.master_signature.as_slice());
        push_certificates(&mut bytes, &self.devices);
        bytes
    }

    pub fn from_serialized(bytes: Vec<u8>) -> (r: Result<DeviceList, &'static str>)
        ensures
            match r {
                Ok(l) => parse_device_list(bytes@) == Some(l@),
                Err(_) => parse_device_list(bytes@) is None,
            },
    {
        if bytes.len() < 72 {
            return Err("Couldn't parse devices list");
        }
        let sequence = read_u64(bytes.as_slice(), 0);
        let master_signature: [u8; 64] = copy_array::<64>(bytes.as_slice(), 8);
        let remaining_len = bytes.len() - 72;
        if remaining_len % 128 != 0 {
            return Err("Invalid device list length: not a multiple of 128 bytes");
        }
        let num_devices = remaining_len / 128;
        if num_devices > MAX_DEVICES {
            return Err("Too many devices");
        }
        let ghost b = bytes@;
        let mut devices: Vec<DeviceCertificate> = Vec::new();
        let mut i: usize = 0;
        while i < num_devices
            invariant
                b == bytes@,
                b.len() >= 72,
                num_devices == (b.len() - 72) / 128,
                (b.len() - 72) % 128 == 0,
                num_devices <= MAX_DEVICES,
                i <= num_devices,
                devices@.len() == i,
                forall|k: int| 0 <= k < i ==> parse_certificate(certificate_slot(b, k)) == Some(#[trigger] devices@[k]@),
            decreases num_devices - i,
        {
            assert(72 + 128 * i + 128 <= b.len()) by (nonlinear_arith)
                requires i < num_devices, num_devices == (b.len() - 72) / 128, b.len() >= 72;
            let chunk = copy_range(bytes.as_slice(), 72 + 128 * i, 128);
            let device = match DeviceCertificate::from_serialized(chunk) {
                Ok(d) => d,
                Err(_) => {
                    assert(parse_certificate(certificate_slot(b, i as int)) is None);
                    return Err("Failed to parse individual device");
                },
            };
            devices.push(device);
            i = i + 1;
        }
        let l = DeviceList { sequence, master_signature, devices };
        proof {
            assert forall|k: int| 0 <= k < (b.len() - 72) / 128 implies #[trigger] parse_certificate(certificate_slot(b, k)) is Some by {
                assert(parse_certificate(certificate_slot(b, k)) == Some(devices@[k]@));
            }
            assert(l@.devices =~= parse_device_list(b).unwrap().devices);
        }
        Ok(l)
    }

    /// An empty list (sequence 0) signed by the master key.
    pub fn new(master: &MasterKeyPair) -> (r: DeviceList)
        ensures
            r@.sequence == 0,
            r@.devices.len() == 0,
            r@.master_signature == ed25519_signature(master.secret(), device_list_signed_data(0, Seq::empty())),
            master.well_formed() ==> device_list_valid(r@, master.public()),
    {
        let devices: Vec<DeviceCertificate> = Vec::new();
        assert(devices@.map_values(|c: DeviceCertificate| c@) =~= Seq::<CertificateView>::empty());
        let master_signature = Self::sign_data(0, &devices, master);
        let r = DeviceList { sequence: 0, devices, master_signature };
        assert(r@.devices =~= devices@.map_values(|c: DeviceCertificate| c@));
        r
    }

    /// Adds a device and re-signs the list with a higher sequence number.
    pub fn add_device(&mut self, master: &MasterKeyPair, new_cert: DeviceCertificate) -> (r: Result<(), &'static str>)
        requires
            old(self).sequence < u64::MAX,
        ensures
            old(self)@.devices.len() >= MAX_DEVICES ==> r is Err && final(self)@ == old(self)@,
            old(self)@.devices.len() < MAX_DEVICES ==> {
                &&& r is Ok
                &&& final(self)@.sequence == old(self)@.sequence + 1
                &&& final(self)@.devices == old(self)@.devices.push(new_cert@)
                &&& final(self)@.master_signature == ed25519_signature(
                    master.secret(),
                    device_list_signed_data(final(self)@.sequence, final(self)@.devices),
                )
                &&& master.well_formed() ==> device_list_valid(final(self)@, master.public())
            },
    {
        if self.devices.len() >= MAX_DEVICES {
            return Err("Device limit reached");
        }
        self.sequence = self.sequence + 1;
        self.devices.push(new_cert);
        self.master_signature = Self::sign_data(self.sequence, &self.devices, master);
        assert(self@.devices =~= old(self)@.devices.push(new_cert@));
        Ok(())
    }

    /// Removes the first device with this Ed25519 key (the last one takes its
    /// place) and re-signs the list with a higher sequence number.
    pub fn remove_device(&mut self, master: &MasterKeyPair, device_pubkey: &[u8; 32]) -> (r: Result<(), &'static str>)
        requires
            old(self).sequence < u64::MAX,
        ensures
            !lists_device(old(self)@, device_pubkey@) ==> r is Err && final(self)@ == old(self)@,
            lists_device(old(self)@, device_pubkey@) ==> {
                &&& r is Ok
                &&& final(self)@.sequence == old(self)@.sequence + 1
                &&& exists|i: int| {
                    &&& 0 <= i < old(self)@.devices.len()
                    &&& #[trigger] old(self)@.devices[i].device_ed25519_pubkey == device_pubkey@
                    &&& forall|k: int| 0 <= k < i ==> old(self)@.devices[k].device_ed25519_pubkey != device_pubkey@
                    &&& final(self)@.devices == old(self)@.devices.update(i, old(self)@.devices.last()).drop_last()
                }
                &&& final(self)@.master_signature == ed25519_signature(
                    master.secret(),
                    device_list_signed_data(final(self)@.sequence, final(self)@.devices),
                )
                &&& master.well_formed() ==> device_list_valid(final(self)@, master.public())
            },
    {
        let i = match find_device(&self.devices, device_pubkey) {
            Some(i) => i,
            None => {
                proof {
                    if lists_device(self@, device_pubkey@) {
                        let k = choose|k: int| 0 <= k < self@.devices.len() && #[trigger] self@.devices[k].device_ed25519_pubkey == device_pubkey@;
                        assert(self.devices@[k].device_ed25519_pubkey@ != device_pubkey@);
                    }
                }
                return Err("Unknown certificate");
            },
        };
        let ghost before = self@;
        assert(self@.devices[i as int].device_ed25519_pubkey == device_pubkey@);
        self.sequence = self.sequence + 1;
        self.devices.swap_remove(i);
        self.master_signature = Self::sign_data(self.sequence, &self.devices, master);
        assert(self@.devices =~= before.devices.update(i as int, before.devices.last()).drop_last());
        Ok(())
    }
}

} // verus!
