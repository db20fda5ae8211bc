//! Reading a hardware address from its text form.
//!
//! The text is six groups of two characters, each group followed by one
//! separator character of any kind: `01:23:45:67:89:ab`. A group spells one
//! octet in hexadecimal. What stands behind the sixth group is not read.

use vstd::prelude::*;
use vstd::string::*;

verus! {

/// The number of octets in a hardware address.
pub const MAC_LEN: usize = 6;

/// Why a text is not a hardware address. `octet` is the index of the first
/// group that could not be read.
#[derive(Clone, Copy, Debug, PartialEq, Eq, Structural)]
pub enum MacError {
    /// The text ends before the group does.
    Truncated { octet: usize },
    /// The group does not spell an octet.
    InvalidOctet { octet: usize },
}

/// The value of a hexadecimal digit in ASCII, upper or lower case.
pub open spec fn hex_value(digit: u8) -> Option<u8> {
    if 0x30 <= digit <= 0x39 {
        Some((digit - 0x30) as u8)
    } else if 0x41 <= digit <= 0x46 {
        Some((digit - 0x41 + 10) as u8)
    } else if 0x61 <= digit <= 0x66 {
        Some((digit - 0x61 + 10) as u8)
    } else {
        None
    }
}

/// The octet that a group of two characters spells: two hexadecimal digits,
/// or a plus sign and one hexadecimal digit.
pub open spec fn octet_value(first: u8, second: u8) -> Option<u8> {
    match hex_value(second) {
        None => None,
        Some(low) => if first == 0x2b {
            Some(low)
        } else {
            match hex_value(first) {
                None => None,
                Some(high) => Some((16 * high + low) as u8),
            }
        },
    }
}

/// What group `i` of a text gives: its octet, or the reason why it has none.
/// The group is the two bytes from `3 * i` on.
pub open spec fn group(text: Seq<u8>, i: int) -> Result<u8, MacError> {
    if text.len() < 3 * i + 2 {
        Err(MacError::Truncated { octet: i as usize })
    } else {
        match octet_value(text[3 * i], text[3 * i + 1]) {
            Some(octet) => Ok(octet),
            None => Err(MacError::InvalidOctet { octet: i as usize }),
        }
    }
}

/// `result` is what reading `text` as a hardware address gives: the six
/// octets if every group has one, else the error of the first group that
/// has none.
pub open spec fn reads_as(text: Seq<u8>, result: Result<[u8; 6], MacError>) -> bool {
    match result {
        Ok(mac) => forall|i: int|
            0 <= i < MAC_LEN ==> #[trigger] group(text, i) == Ok::<u8, MacError>(mac@[i]),
        Err(error) => exists|i: int|
            0 <= i < MAC_LEN && #[trigger] group(text, i) == Err::<u8, MacError>(error) && forall|j: int|
                0 <= j < i ==> (#[trigger] group(text, j)) is Ok,
    }
}

/// The value of a hexadecimal digit, if `digit` is one.
fn hex_digit(digit: u8) -> (value: Option<u8>)
    ensures
        value == hex_value(digit),
{
    if 0x30 <= digit && digit <= 0x39 {
        Some(digit - 0x30)
    } else if 0x41 <= digit && digit <= 0x46 {
        Some(digit - 0x41 + 10)
    } else if 0x61 <= digit && digit <= 0x66 {
        Some(digit - 0x61 + 10)
    } else {
        None
    }
}

/// The octet that the two characters of a group spell, if they spell one.
fn parse_octet(first: u8, second: u8) -> (octet: Option<u8>)
    ensures
        octet == octet_value(first, second),
{
    match hex_digit(second) {
        None => None,
        Some(low) => {
            if first == 0x2b {
                Some(low)
            } else {
                match hex_digit(first) {
                    None => None,
                    Some(high) => Some(16 * high + low),
                }
            }
        },
    }
}

/// Reads a hardware address. The groups are read in order, and the first
/// one that is cut short or does not spell an octet decides the error.
pub fn parse_mac(mac: &str) -> (result: Result<[u8; 6], MacError>)
    ensures
        reads_as(mac.spec_bytes(), result),
{
    let text = mac.as_bytes();
    let mut out = [0u8;6];
    let mut i: usize = 0;
    while i < MAC_LEN
        invariant
            i <= MAC_LEN,
            text@ == mac.spec_bytes(),
            forall|j: int| 0 <= j < i ==> #[trigger] group(text@, j) == Ok::<u8, MacError>(out@[j]),
        decreases MAC_LEN - i,
    {
        if text.len() < 3 * i + 2 {
            assert(group(text@, i as int) == Err::<u8, MacError>(MacError::Truncated { octet: i }));
            return Err(MacError::Truncated { octet: i });
        }
        match parse_octet(text[3 * i], text[3 * i + 1]) {
            None => {
                assert(group(text@, i as int) == Err::<u8, MacError>(
                    MacError::InvalidOctet { octet: i },
                ));
                return Err(MacError::InvalidOctet { octet: i });
            },
            Some(octet) => {
                out[i] = octet;
            },
        }
        i = i + 1;
    }
    Ok(out)
}

} // verus!
