//! The wake signal: the bytes that, broadcast on the target's network, power
//! the target on.

use vstd::prelude::*;

verus! {

/// The length of a wake signal in bytes.
pub const PAYLOAD_LEN: usize = 102;

/// The wake signal for the hardware address `mac`: six bytes `0xFF`, then
/// the six octets of the address sixteen times over.
pub open spec fn magic_payload(mac: Seq<u8>) -> Seq<u8> {
    Seq::new(
        PAYLOAD_LEN as nat,
        |i: int|
            if i < 6 {
                0xffu8
            } else {
                mac[(i - 6) % 6]
            },
    )
}

/// Calls `wake_on_lan::MagicPacket::new` and copies what `magic_bytes`
/// shows of the packet. Taken on trust from that crate: the packet holds
/// 102 bytes, six times `0xFF` and then sixteen copies of the address.
#[verifier::external_body]
fn magic_bytes(mac: &[u8; 6]) -> (payload: Vec<u8>)
    ensures
        payload@ == magic_payload(mac@),
{
    wake_on_lan::MagicPacket::new(mac).magic_bytes().to_vec()
}

/// The wake signal to broadcast for a target with hardware address `mac`.
pub fn wake_payload(mac: &[u8; 6]) -> (payload: Vec<u8>)
    ensures
        payload@ == magic_payload(mac@),
        payload@.len() == PAYLOAD_LEN,
{
    magic_bytes(mac)
}

} // verus!
