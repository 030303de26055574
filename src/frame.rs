//! From a captured Ethernet frame to the identity of the device that sent
//! the address-resolution message it carries.

use vstd::prelude::*;
use pnet::packet::arp::ArpPacket;
use pnet::packet::ethernet::EthernetPacket;

verus! {

/// Length of an Ethernet header: two addresses and the type field.
pub const ETHERNET_HEADER_LEN: usize = 14;

/// Ether type of an address-resolution payload.
pub const ETHER_TYPE_ARP: u16 = 0x0806;

/// Length of an address-resolution message for IPv4 over Ethernet.
pub const ARP_MESSAGE_LEN: usize = 28;

/// The 16-bit value of two bytes in network order.
pub open spec fn be_u16(hi: u8, lo: u8) -> int {
    hi * 256 + lo
}

/// The value of a six-byte hardware address, first byte most significant.
pub open spec fn hw_value(o: Seq<u8>) -> int {
    o[0] * 0x100_0000_0000 + o[1] * 0x1_0000_0000 + o[2] * 0x100_0000 + o[3] * 0x1_0000 + o[4]
        * 0x100 + o[5]
}

/// The identity of the sender of the address-resolution message in
/// `frame`, if the frame carries one.
pub open spec fn arp_sender_of(frame: Seq<u8>) -> Option<u64> {
    if frame.len() >= ETHERNET_HEADER_LEN + ARP_MESSAGE_LEN && be_u16(frame[12], frame[13])
        == ETHER_TYPE_ARP {
        Some(hw_value(frame.subrange(22, 28)) as u64)
    } else {
        None
    }
}

/// Relies on pnet's `EthernetPacket::new` and its `get_ethertype`: a buffer
/// of at least the 14 header bytes is accepted, and the type field is read
/// from bytes 12 and 13, big-endian.
#[verifier::external_body]
fn ether_type(frame: &[u8]) -> (r: Option<u16>)
    ensures
        r is Some <==> frame@.len() >= 14,
        r matches Some(t) ==> t == be_u16(frame@[12], frame@[13]),
{
    match EthernetPacket::new(frame) {
        Some(packet) => Some(packet.get_ethertype().0),
        None => None,
    }
}

/// Relies on pnet's `ArpPacket::new` and its `get_sender_hw_addr`: a buffer
/// of at least 28 bytes is accepted, and the sender's hardware address is
/// read from bytes 8 to 13.
#[verifier::external_body]
fn arp_sender_octets(message: &[u8]) -> (r: Option<[u8; 6]>)
    ensures
        r is Some <==> message@.len() >= 28,
        r matches Some(o) ==> o@ == message@.subrange(8, 14),
{
    match ArpPacket::new(message) {
        Some(packet) => {
            let a = packet.get_sender_hw_addr();
            Some([a.0, a.1, a.2, a.3, a.4, a.5])
        },
        None => None,
    }
}

/// The identity of a hardware address: its six bytes, first byte most
/// significant, in the low 48 bits.
pub fn hw_identity(o: [u8; 6]) -> (r: u64)
    ensures
        r == hw_value(o@),
        r < 0x1_0000_0000_0000,
{
    (o[0] as u64) * 0x100_0000_0000 + (o[1] as u64) * 0x1_0000_0000 + (o[2] as u64) * 0x100_0000
        + (o[3] as u64) * 0x1_0000 + (o[4] as u64) * 0x100 + (o[5] as u64)
}

/// The identity of the sender of the address-resolution message that
/// `frame` carries; `None` for a frame too short or of another type.
pub fn arp_sender(frame: &[u8]) -> (r: Option<u64>)
    ensures
        r == arp_sender_of(frame@),
{
    match ether_type(frame) {
        Some(t) => {
            if t != ETHER_TYPE_ARP {
                return None;
            }
            let (_, payload) = frame.split_at(ETHERNET_HEADER_LEN);
            match arp_sender_octets(payload) {
                Some(o) => {
                    let id = hw_identity(o);
                    proof {
                        assert(o@ =~= frame@.subrange(22, 28));
                    }
                    Some(id)
                },
                None => None,
            }
        },
        None => None,
    }
}

} // verus!
