//! The textual form of a hardware address: six pairs of hexadecimal digits
//! joined by one kind of separator, `:` or `-`.

use vstd::prelude::*;

verus! {

/// The pattern a hardware address must match to be accepted, as a regular expression.
pub const MAC_ADDR_REGEX_STR: &'static str =
    "^(?:[0-9A-Fa-f]{2}:){5}[0-9A-Fa-f]{2}$|^(?:[0-9A-Fa-f]{2}-){5}[0-9A-Fa-f]{2}$";

/// The number of characters in a textual hardware address.
pub const MAC_TEXT_LEN: usize = 17;

/// Whether `c` is a hexadecimal digit, in either case.
pub open spec fn is_hex_digit(c: char) -> bool {
    ('0' <= c && c <= '9') || ('a' <= c && c <= 'f') || ('A' <= c && c <= 'F')
}

/// Whether `c` may separate two octets.
pub open spec fn is_separator(c: char) -> bool {
    c == ':' || c == '-'
}

/// The number a hexadecimal digit stands for.
pub open spec fn hex_value(c: char) -> nat
    recommends
        is_hex_digit(c),
{
    if '0' <= c && c <= '9' {
        (c as nat - '0' as nat) as nat
    } else if 'a' <= c && c <= 'f' {
        (c as nat - 'a' as nat + 10) as nat
    } else {
        (c as nat - 'A' as nat + 10) as nat
    }
}

/// Whether position `i` of `s` holds what the pattern asks for there: the
/// separator of the whole text at every third place, a hexadecimal digit elsewhere.
pub open spec fn well_placed(s: Seq<char>, i: int) -> bool {
    if i % 3 == 2 {
        s[i] == s[2]
    } else {
        is_hex_digit(s[i])
    }
}

/// Whether `s` is a hardware address in text: `XX:XX:XX:XX:XX:XX` or
/// `XX-XX-XX-XX-XX-XX`, with hexadecimal digits of either case.
pub open spec fn is_valid_mac(s: Seq<char>) -> bool {
    &&& s.len() == 17
    &&& is_separator(s[2])
    &&& forall|i: int| 0 <= i < 17 ==> #[trigger] well_placed(s, i)
}

/// The characters that a sequence of bytes spells, one character per byte.
pub open spec fn bytes_as_text(bytes: Seq<u8>) -> Seq<char> {
    Seq::new(bytes.len(), |i: int| bytes[i] as char)
}

/// Tells whether a byte is a hexadecimal digit.
pub fn is_hex_byte(b: u8) -> (r: bool)
    ensures
        r == is_hex_digit(b as char),
{
    (0x30 <= b && b <= 0x39) || (0x61 <= b && b <= 0x66) || (0x41 <= b && b <= 0x46)
}

/// Tells whether `bytes` spell a hardware address.
pub fn text_is_valid_mac(bytes: &[u8]) -> (r: bool)
    ensures
        r == is_valid_mac(bytes_as_text(bytes@)),
{
    if bytes.len() != MAC_TEXT_LEN {
        return false;
    }
    let ghost s = bytes_as_text(bytes@);
    let sep: u8 = bytes[2];
    if sep != 0x3A && sep != 0x2D {
        assert(!is_separator(s[2]));
        return false;
    }
    let mut i: usize = 0;
    while i < MAC_TEXT_LEN
        invariant
            0 <= i <= 17,
            bytes@.len() == 17,
            s == bytes_as_text(bytes@),
            sep == bytes@[2],
            forall|j: int| 0 <= j < i ==> #[trigger] well_placed(s, j),
        decreases 17 - i,
    {
        let b: u8 = bytes[i];
        let ok = if i % 3 == 2 {
            b == sep
        } else {
            is_hex_byte(b)
        };
        if !ok {
            assert(!well_placed(s, i as int));
            return false;
        }
        i += 1;
    }
    true
}

/// The octet that the `k`-th pair of hexadecimal digits of `s` spells.
pub open spec fn octet_at(s: Seq<char>, k: int) -> nat {
    hex_value(s[3 * k]) * 16 + hex_value(s[3 * k + 1])
}

/// The 48-bit number that a textual hardware address stands for, first octet
/// most significant.
pub open spec fn mac_value(s: Seq<char>) -> nat
    recommends
        is_valid_mac(s),
{
    octet_at(s, 0) * 0x100_0000_0000 + octet_at(s, 1) * 0x1_0000_0000 + octet_at(s, 2)
        * 0x100_0000 + octet_at(s, 3) * 0x1_0000 + octet_at(s, 4) * 0x100 + octet_at(s, 5)
}

/// The number that a hexadecimal digit stands for.
pub(crate) fn hex_byte_value(b: u8) -> (v: u8)
    requires
        is_hex_digit(b as char),
    ensures
        v == hex_value(b as char),
        v < 16,
{
    if b <= 0x39 {
        b - 0x30
    } else if b >= 0x61 {
        b - 0x61 + 10
    } else {
        b - 0x41 + 10
    }
}

/// The `k`-th octet of a textual hardware address.
pub(crate) fn octet_of_text(bytes: &[u8], k: usize) -> (octet: u8)
    requires
        is_valid_mac(bytes_as_text(bytes@)),
        k < 6,
    ensures
        octet == octet_at(bytes_as_text(bytes@), k as int),
{
    let ghost s = bytes_as_text(bytes@);
    assert(well_placed(s, 3 * k as int));
    assert(well_placed(s, 3 * k as int + 1));
    let high: u8 = hex_byte_value(bytes[3 * k]);
    let low: u8 = hex_byte_value(bytes[3 * k + 1]);
    high * 16 + low
}

} // verus!
