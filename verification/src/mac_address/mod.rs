//! A 48-bit hardware address, its wire form and its textual form.

use vstd::prelude::*;
use vstd::string::is_ascii_spec_bytes;
use vstd::string::StringSliceAdditionalSpecFns;
use vstd::string::StringExecFns;

pub mod laws;
pub mod validation;

use validation::{
    bytes_as_text, is_valid_mac, mac_value, octet_of_text, text_is_valid_mac, well_placed,
    MAC_ADDR_REGEX_STR,
};

verus! {

/// The largest value a hardware address can hold: 48 bits, all set.
pub const MAC_MAX_VALUE: u64 = 0xFFFF_FFFF_FFFF;

/// The number a sequence of eight bytes stands for when read big-endian.
pub open spec fn be_value(bytes: Seq<u8>) -> nat
    recommends
        bytes.len() == 8,
{
    (bytes[0] as nat) * 0x100_0000_0000_0000 + (bytes[1] as nat) * 0x1_0000_0000_0000
        + (bytes[2] as nat) * 0x100_0000_0000 + (bytes[3] as nat) * 0x1_0000_0000
        + (bytes[4] as nat) * 0x100_0000 + (bytes[5] as nat) * 0x1_0000
        + (bytes[6] as nat) * 0x100 + (bytes[7] as nat)
}

/// The eight big-endian bytes of the address with value `v`: two zero bytes,
/// then its six octets.
pub open spec fn wire_bytes(v: nat) -> Seq<u8> {
    seq![
        0u8,
        0u8,
        octet_of_value(v, 0) as u8,
        octet_of_value(v, 1) as u8,
        octet_of_value(v, 2) as u8,
        octet_of_value(v, 3) as u8,
        octet_of_value(v, 4) as u8,
        octet_of_value(v, 5) as u8,
    ]
}

/// A 6-byte hardware address, kept as the low 48 bits of a `u64`.
#[derive(Copy, Clone, Debug, PartialEq, Eq, Structural)]
pub struct MacAddress(u64);

impl View for MacAddress {
    type V = nat;

    closed spec fn view(&self) -> nat {
        self.0 as nat
    }
}

impl MacAddress {
    #[verifier::type_invariant]
    spec fn fits_in_six_bytes(self) -> bool {
        self.0 <= MAC_MAX_VALUE
    }

    /// Builds an address from its numeric value, which must fit in 48 bits.
    pub fn new(n: u64) -> (mac: MacAddress)
        requires
            n <= MAC_MAX_VALUE,
        ensures
            mac@ == n,
    {
        MacAddress(n)
    }

    /// The numeric value of the address.
    pub fn value(&self) -> (n: u64)
        ensures
            n == self@,
            n <= MAC_MAX_VALUE,
    {
        proof {
            use_type_invariant(self);
        }
        self.0
    }

    /// The address as eight big-endian bytes; the first two are always zero.
    pub fn as_bytes(&self) -> (bytes: [u8; 8])
        ensures
            bytes@ == wire_bytes(self@),
            bytes[0] == 0,
            bytes[1] == 0,
            be_value(bytes@) == self@,
    {
        let bytes: [u8; 8] = [
            0u8,
            0u8,
            self.octet(0),
            self.octet(1),
            self.octet(2),
            self.octet(3),
            self.octet(4),
            self.octet(5),
        ];
        proof {
            use_type_invariant(self);
            assert(bytes@ =~= wire_bytes(self@));
            laws::lemma_wire_bytes_hold_value(self@);
        }
        bytes
    }
}

/// Two addresses are equal exactly if their values are.
pub proof fn lemma_equal_by_value(a: MacAddress, b: MacAddress)
    ensures
        a == b <==> a@ == b@,
{
}

/// Why a text was not accepted as a hardware address.
#[derive(Debug)]
pub enum MacParseError {
    /// The text does not match the pattern of a hardware address; it is kept
    /// for the message.
    InvalidMac { invalid_mac: String },
}

impl MacAddress {
    /// Reads a hardware address from text of the form `XX:XX:XX:XX:XX:XX` or
    /// `XX-XX-XX-XX-XX-XX`; any other text is handed back in the error.
    pub fn parse(text: &str) -> (r: Result<MacAddress, MacParseError>)
        ensures
            is_valid_mac(text@) ==> (r matches Ok(mac) && mac@ == mac_value(text@)),
            !is_valid_mac(text@) ==> (r matches Err(MacParseError::InvalidMac { invalid_mac })
                && invalid_mac@ == text@),
    {
        if !text.is_ascii() {
            assert(!is_valid_mac(text@)) by {
                if is_valid_mac(text@) {
                    assert forall|i: int| 0 <= i < text@.len() implies '\0' <= #[trigger] text@[i]
                        <= '\u{7f}' by {
                        assert(well_placed(text@, i));
                    }
                }
            }
            return Err(MacParseError::InvalidMac { invalid_mac: text.to_owned() });
        }
        let bytes = text.as_bytes();
        proof {
            is_ascii_spec_bytes(text);
            assert(bytes_as_text(bytes@) =~= text@);
        }
        if !text_is_valid_mac(bytes) {
            return Err(MacParseError::InvalidMac { invalid_mac: text.to_owned() });
        }
        let o0: u64 = octet_of_text(bytes, 0) as u64;
        let o1: u64 = octet_of_text(bytes, 1) as u64;
        let o2: u64 = octet_of_text(bytes, 2) as u64;
        let o3: u64 = octet_of_text(bytes, 3) as u64;
        let o4: u64 = octet_of_text(bytes, 4) as u64;
        let o5: u64 = octet_of_text(bytes, 5) as u64;
        let n: u64 = o0 * 0x100_0000_0000 + o1 * 0x1_0000_0000 + o2 * 0x100_0000 + o3 * 0x1_0000
            + o4 * 0x100 + o5;
        Ok(MacAddress::new(n))
    }
}

/// The weight of the `k`-th octet of an address, the first octet being the
/// most significant.
pub open spec fn octet_weight(k: int) -> nat {
    if k == 0 {
        0x100_0000_0000
    } else if k == 1 {
        0x1_0000_0000
    } else if k == 2 {
        0x100_0000
    } else if k == 3 {
        0x1_0000
    } else if k == 4 {
        0x100
    } else {
        1
    }
}

/// The `k`-th octet of the address with value `v`.
pub open spec fn octet_of_value(v: nat, k: int) -> nat {
    (v / octet_weight(k)) % 256
}

/// The uppercase hexadecimal digit for a number below sixteen.
pub open spec fn hex_upper(n: nat) -> char
    recommends
        n < 16,
{
    if n < 10 {
        (0x30 + n) as char
    } else {
        (0x41 + n - 10) as char
    }
}

/// The character at position `i` of the canonical text of the address with
/// value `v`.
pub open spec fn canonical_char(v: nat, i: int) -> char {
    if i % 3 == 2 {
        ':'
    } else if i % 3 == 0 {
        hex_upper(octet_of_value(v, i / 3) / 16)
    } else {
        hex_upper(octet_of_value(v, i / 3) % 16)
    }
}

/// The canonical text of the address with value `v`: six uppercase,
/// zero-padded octets joined by colons.
pub open spec fn canonical_text(v: nat) -> Seq<char> {
    Seq::new(17, |i: int| canonical_char(v, i))
}

/// The uppercase hexadecimal digit for `n`, as a one-character text.
fn hex_digit_text(n: u8) -> (text: &'static str)
    requires
        n < 16,
    ensures
        text@ == seq![hex_upper(n as nat)],
{
    proof {
        reveal_strlit("0");
        reveal_strlit("1");
        reveal_strlit("2");
        reveal_strlit("3");
        reveal_strlit("4");
        reveal_strlit("5");
        reveal_strlit("6");
        reveal_strlit("7");
        reveal_strlit("8");
        reveal_strlit("9");
        reveal_strlit("A");
        reveal_strlit("B");
        reveal_strlit("C");
        reveal_strlit("D");
        reveal_strlit("E");
        reveal_strlit("F");
    }
    let text = if n == 0 {
        "0"
    } else if n == 1 {
        "1"
    } else if n == 2 {
        "2"
    } else if n == 3 {
        "3"
    } else if n == 4 {
        "4"
    } else if n == 5 {
        "5"
    } else if n == 6 {
        "6"
    } else if n == 7 {
        "7"
    } else if n == 8 {
        "8"
    } else if n == 9 {
        "9"
    } else if n == 10 {
        "A"
    } else if n == 11 {
        "B"
    } else if n == 12 {
        "C"
    } else if n == 13 {
        "D"
    } else if n == 14 {
        "E"
    } else {
        "F"
    };
    assert(text@ =~= seq![hex_upper(n as nat)]);
    text
}

impl MacAddress {
    /// The `k`-th octet of the address, the first being the most significant.
    pub fn octet(&self, k: usize) -> (octet: u8)
        requires
            k < 6,
        ensures
            octet == octet_of_value(self@, k as int),
    {
        let v: u64 = self.0;
        let shifted: u64 = if k == 0 {
            v / 0x100_0000_0000
        } else if k == 1 {
            v / 0x1_0000_0000
        } else if k == 2 {
            v / 0x100_0000
        } else if k == 3 {
            v / 0x1_0000
        } else if k == 4 {
            v / 0x100
        } else {
            v
        };
        (shifted % 256) as u8
    }

    /// The canonical text of the address: uppercase, colon-separated,
    /// zero-padded octets, however the address was written when it was read.
    pub fn to_canonical_string(&self) -> (text: String)
        ensures
            text@ == canonical_text(self@),
    {
        let ghost v = self@;
        let mut text = String::new();
        let mut k: usize = 0;
        while k < 5
            invariant
                0 <= k <= 5,
                v == self@,
                text@ == canonical_text(v).take(3 * k as int),
            decreases 5 - k,
        {
            let octet: u8 = self.octet(k);
            let ghost before = text@;
            text.append(hex_digit_text(octet / 16));
            text.append(hex_digit_text(octet % 16));
            text.append(":");
            proof {
                reveal_strlit(":");
                assert(":"@ =~= seq![':']);
                assert(canonical_char(v, 3 * k as int) == hex_upper((octet / 16) as nat));
                assert(canonical_char(v, 3 * k as int + 1) == hex_upper((octet % 16) as nat));
                assert(canonical_char(v, 3 * k as int + 2) == ':');
                assert(text@ =~= canonical_text(v).take(3 * (k + 1) as int));
            }
            k += 1;
        }
        let octet: u8 = self.octet(5);
        text.append(hex_digit_text(octet / 16));
        text.append(hex_digit_text(octet % 16));
        proof {
            assert(canonical_char(v, 15) == hex_upper((octet / 16) as nat));
            assert(canonical_char(v, 16) == hex_upper((octet % 16) as nat));
            assert(text@ =~= canonical_text(v));
        }
        text
    }

    /// Reads an address from its eight big-endian bytes; the first two must
    /// be zero.
    pub fn from_wire_bytes(bytes: [u8; 8]) -> (r: Option<MacAddress>)
        ensures
            r is Some <==> (bytes[0] == 0 && bytes[1] == 0),
            r matches Some(mac) ==> mac@ == be_value(bytes@),
    {
        if bytes[0] != 0 || bytes[1] != 0 {
            return None;
        }
        let n: u64 = (bytes[2] as u64) * 0x100_0000_0000 + (bytes[3] as u64) * 0x1_0000_0000
            + (bytes[4] as u64) * 0x100_0000 + (bytes[5] as u64) * 0x1_0000 + (bytes[6] as u64)
            * 0x100 + (bytes[7] as u64);
        Some(MacAddress::new(n))
    }
}

impl Default for MacAddress {
    /// The all-zero address.
    fn default() -> (mac: MacAddress)
        ensures
            mac@ == 0,
    {
        MacAddress(0)
    }
}

impl std::str::FromStr for MacAddress {
    type Err = MacParseError;

    fn from_str(input: &str) -> (r: Result<MacAddress, MacParseError>)
        ensures
            is_valid_mac(input@) ==> (r matches Ok(mac) && mac@ == mac_value(input@)),
            !is_valid_mac(input@) ==> (r matches Err(MacParseError::InvalidMac { invalid_mac })
                && invalid_mac@ == input@),
    {
        MacAddress::parse(input)
    }
}

/// Why a value in structured data was not accepted as a hardware address:
/// the text that was found, and a description of what was expected.
#[derive(Debug)]
pub struct InvalidMacValue {
    pub unexpected: String,
    pub expected: String,
}

/// What is expected of a hardware address in structured data: text that
/// matches the pattern, which the description spells out.
pub open spec fn expected_text() -> Seq<char> {
    "MAC Address in string format matching regex: "@ + MAC_ADDR_REGEX_STR@
}

impl MacAddress {
    /// Reads a hardware address from a text found in structured data. The
    /// text is accepted exactly if `parse` accepts it; otherwise the error
    /// holds the text and names the pattern that it should have matched.
    pub fn from_structured_text(text: &str) -> (r: Result<MacAddress, InvalidMacValue>)
        ensures
            is_valid_mac(text@) ==> (r matches Ok(mac) && mac@ == mac_value(text@)),
            !is_valid_mac(text@) ==> (r matches Err(error) && error.unexpected@ == text@
                && error.expected@ == expected_text()),
    {
        match MacAddress::parse(text) {
            Ok(mac) => Ok(mac),
            Err(_) => {
                let mut expected = "MAC Address in string format matching regex: ".to_owned();
                expected.append(MAC_ADDR_REGEX_STR);
                Err(InvalidMacValue { unexpected: text.to_owned(), expected })
            },
        }
    }
}

impl<'a> std::convert::TryFrom<&'a str> for MacAddress {
    type Error = MacParseError;

    fn try_from(value: &'a str) -> (r: Result<MacAddress, MacParseError>)
        ensures
            is_valid_mac(value@) ==> (r matches Ok(mac) && mac@ == mac_value(value@)),
            !is_valid_mac(value@) ==> (r matches Err(MacParseError::InvalidMac { invalid_mac })
                && invalid_mac@ == value@),
    {
        MacAddress::parse(value)
    }
}

impl<'a> vstd::std_specs::convert::TryFromSpecImpl<&'a str> for MacAddress {
    /// The result of `try_from` holds a text of its own, which no
    /// specification function can hand out: what it is stands in the
    /// contract of `try_from` itself.
    open spec fn obeys_try_from_spec() -> bool {
        false
    }

    open spec fn try_from_spec(value: &'a str) -> Result<MacAddress, MacParseError> {
        arbitrary()
    }
}

impl<'a> std::convert::TryFrom<std::borrow::Cow<'a, str>> for MacAddress {
    type Error = MacParseError;

    fn try_from(value: std::borrow::Cow<'a, str>) -> (r: Result<MacAddress, MacParseError>)
        ensures
            is_valid_mac(value@) ==> (r matches Ok(mac) && mac@ == mac_value(value@)),
            !is_valid_mac(value@) ==> (r matches Err(MacParseError::InvalidMac { invalid_mac })
                && invalid_mac@ == value@),
    {
        match &value {
            std::borrow::Cow::Borrowed(text) => MacAddress::parse(text),
            std::borrow::Cow::Owned(text) => MacAddress::parse(text.as_str()),
        }
    }
}

impl<'a> vstd::std_specs::convert::TryFromSpecImpl<std::borrow::Cow<'a, str>> for MacAddress {
    /// As for `&str`: what `try_from` returns stands in its own contract.
    open spec fn obeys_try_from_spec() -> bool {
        false
    }

    open spec fn try_from_spec(value: std::borrow::Cow<'a, str>) -> Result<
        MacAddress,
        MacParseError,
    > {
        arbitrary()
    }
}

} // verus!
