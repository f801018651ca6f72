//! Frames: the immutable link-layer packet values carried by the simulator.

use vstd::prelude::*;

verus! {

broadcast use vstd::array::group_array_axioms;

/// A fixed six-byte link-layer hardware address, used as a table key.
pub type MacAddress = [u8; 6];

/// The type tag stamped on every frame a node originates.
pub const DEFAULT_ETHERTYPE: u16 = 0x0800;

/// Mathematical image of an [`EthernetFrame`]: the payload as a sequence.
#[verifier::ext_equal]
pub ghost struct FrameModel {
    pub src_mac: MacAddress,
    pub dst_mac: MacAddress,
    pub ethertype: u16,
    pub payload: Seq<u8>,
}

/// An immutable link-layer packet value. Each hop operates on an
/// independent copy; no frame is shared between sender and receiver.
#[derive(Debug, PartialEq, Eq)]
pub struct EthernetFrame {
    pub src_mac: MacAddress,
    pub dst_mac: MacAddress,
    pub ethertype: u16,
    pub payload: Vec<u8>,
}

impl View for EthernetFrame {
    type V = FrameModel;

    open spec fn view(&self) -> FrameModel {
        FrameModel {
            src_mac: self.src_mac,
            dst_mac: self.dst_mac,
            ethertype: self.ethertype,
            payload: self.payload@,
        }
    }
}

impl EthernetFrame {
    pub fn new(src_mac: MacAddress, dst_mac: MacAddress, ethertype: u16, payload: Vec<u8>) -> (r: Self)
        ensures
            r@ == (FrameModel { src_mac, dst_mac, ethertype, payload: payload@ }),
    {
        Self { src_mac, dst_mac, ethertype, payload }
    }
}

impl Clone for EthernetFrame {
    fn clone(&self) -> (r: Self)
        ensures
            r@ == self@,
    {
        let payload = self.payload.clone();
        proof {
            assert(payload@ =~= self.payload@);
        }
        EthernetFrame {
            src_mac: self.src_mac,
            dst_mac: self.dst_mac,
            ethertype: self.ethertype,
            payload,
        }
    }
}

/// Compare two hardware addresses byte for byte.
pub fn mac_eq(a: &MacAddress, b: &MacAddress) -> (r: bool)
    ensures
        r <==> *a == *b,
        r <==> a@ == b@,
{
    let r = a[0] == b[0] && a[1] == b[1] && a[2] == b[2] && a[3] == b[3] && a[4] == b[4]
        && a[5] == b[5];
    proof {
        if r {
            assert(*a =~= *b);
        } else {
            assert(*a == *b ==> a@ == b@);
        }
    }
    r
}

} // verus!
