//! What holds of hardware addresses, their wire form and their text, for
//! every address and every text.

use vstd::prelude::*;

use super::validation::{
    hex_value, is_hex_digit, is_separator, is_valid_mac, mac_value, octet_at, well_placed,
};
use super::{
    be_value, canonical_char, canonical_text, hex_upper, octet_of_value, wire_bytes, MAC_MAX_VALUE,
};

verus! {

/// The uppercase form of a hexadecimal digit; other characters stay as they are.
pub open spec fn to_upper_hex(c: char) -> char {
    if 'a' <= c && c <= 'f' {
        (c as nat - 0x20) as char
    } else {
        c
    }
}

/// A textual hardware address with its digits in uppercase and colons for
/// separators.
pub open spec fn uppercase_normalized(s: Seq<char>) -> Seq<char> {
    Seq::new(
        17,
        |i: int|
            if i % 3 == 2 {
                ':'
            } else {
                to_upper_hex(s[i])
            },
    )
}

/// Six octets, weighted by their places, make a 48-bit number from which
/// division and remainder give each octet back.
proof fn lemma_octets_compose(o0: u64, o1: u64, o2: u64, o3: u64, o4: u64, o5: u64)
    by (bit_vector)
    requires
        o0 < 256,
        o1 < 256,
        o2 < 256,
        o3 < 256,
        o4 < 256,
        o5 < 256,
    ensures
        ({
            let n = (o0 * 0x100_0000_0000 + o1 * 0x1_0000_0000 + o2 * 0x100_0000 + o3 * 0x1_0000
                + o4 * 0x100 + o5) as u64;
            &&& n <= 0xFFFF_FFFF_FFFF
            &&& (n / 0x100_0000_0000) % 256 == o0
            &&& (n / 0x1_0000_0000) % 256 == o1
            &&& (n / 0x100_0000) % 256 == o2
            &&& (n / 0x1_0000) % 256 == o3
            &&& (n / 0x100) % 256 == o4
            &&& n % 256 == o5
        }),
{
}

/// A 48-bit number is the weighted sum of its six octets.
proof fn lemma_octets_decompose(n: u64)
    by (bit_vector)
    requires
        n <= 0xFFFF_FFFF_FFFF,
    ensures
        ((n / 0x100_0000_0000) % 256) * 0x100_0000_0000 + ((n / 0x1_0000_0000) % 256)
            * 0x1_0000_0000 + ((n / 0x100_0000) % 256) * 0x100_0000 + ((n / 0x1_0000) % 256)
            * 0x1_0000 + ((n / 0x100) % 256) * 0x100 + (n % 256) == n,
{
}

/// The wire form of an address has its top two bytes zero and holds the
/// address's six octets, which make its value in big-endian order.
pub proof fn lemma_wire_bytes_hold_value(v: nat)
    requires
        v <= MAC_MAX_VALUE,
    ensures
        wire_bytes(v).len() == 8,
        wire_bytes(v)[0] == 0,
        wire_bytes(v)[1] == 0,
        be_value(wire_bytes(v)) == v,
        forall|k: int| 0 <= k < 6 ==> wire_bytes(v)[k + 2] == #[trigger] octet_of_value(v, k),
{
    lemma_octets_decompose(v as u64);
}

/// Reading eight bytes whose top two are zero and writing the value back
/// gives the same bytes.
pub proof fn lemma_wire_bytes_of_value_read(bytes: Seq<u8>)
    requires
        bytes.len() == 8,
        bytes[0] == 0,
        bytes[1] == 0,
    ensures
        be_value(bytes) <= MAC_MAX_VALUE,
        wire_bytes(be_value(bytes)) == bytes,
{
    lemma_octets_compose(
        bytes[2] as u64,
        bytes[3] as u64,
        bytes[4] as u64,
        bytes[5] as u64,
        bytes[6] as u64,
        bytes[7] as u64,
    );
    assert(wire_bytes(be_value(bytes)) =~= bytes);
}

/// A hexadecimal digit stands for a number below sixteen, whose uppercase
/// digit is the digit itself in uppercase.
pub proof fn lemma_hex_digit_round_trip(c: char)
    requires
        is_hex_digit(c),
    ensures
        hex_value(c) < 16,
        hex_upper(hex_value(c)) == to_upper_hex(c),
        is_hex_digit(to_upper_hex(c)),
        hex_value(to_upper_hex(c)) == hex_value(c),
{
}

/// The two digits of an octet in a valid text are its high and low halves.
proof fn lemma_octet_halves(s: Seq<char>, k: int)
    requires
        is_valid_mac(s),
        0 <= k < 6,
    ensures
        octet_at(s, k) < 256,
        octet_at(s, k) / 16 == hex_value(s[3 * k]),
        octet_at(s, k) % 16 == hex_value(s[3 * k + 1]),
        is_hex_digit(s[3 * k]),
        is_hex_digit(s[3 * k + 1]),
{
    assert(well_placed(s, 3 * k));
    assert(well_placed(s, 3 * k + 1));
    lemma_hex_digit_round_trip(s[3 * k]);
    lemma_hex_digit_round_trip(s[3 * k + 1]);
}

/// Each octet of the value of a valid text is the octet that the text spells
/// at that place.
pub proof fn lemma_octets_of_parsed(s: Seq<char>)
    requires
        is_valid_mac(s),
    ensures
        mac_value(s) <= MAC_MAX_VALUE,
        forall|k: int| 0 <= k < 6 ==> #[trigger] octet_of_value(mac_value(s), k) == octet_at(s, k),
{
    lemma_octet_halves(s, 0);
    lemma_octet_halves(s, 1);
    lemma_octet_halves(s, 2);
    lemma_octet_halves(s, 3);
    lemma_octet_halves(s, 4);
    lemma_octet_halves(s, 5);
    let o0 = octet_at(s, 0) as u64;
    let o1 = octet_at(s, 1) as u64;
    let o2 = octet_at(s, 2) as u64;
    let o3 = octet_at(s, 3) as u64;
    let o4 = octet_at(s, 4) as u64;
    let o5 = octet_at(s, 5) as u64;
    lemma_octets_compose(o0, o1, o2, o3, o4, o5);
    let n = (o0 * 0x100_0000_0000 + o1 * 0x1_0000_0000 + o2 * 0x100_0000 + o3 * 0x1_0000 + o4
        * 0x100 + o5) as u64;
    assert(n == mac_value(s));
    assert(octet_of_value(mac_value(s), 0) == o0);
    assert(octet_of_value(mac_value(s), 1) == o1);
    assert(octet_of_value(mac_value(s), 2) == o2);
    assert(octet_of_value(mac_value(s), 3) == o3);
    assert(octet_of_value(mac_value(s), 4) == o4);
    assert(octet_of_value(mac_value(s), 5) == o5);
}

/// The canonical text of a parsed address is the text it was parsed from, in
/// uppercase and with colons.
pub proof fn lemma_canonical_text_of_parsed(s: Seq<char>)
    requires
        is_valid_mac(s),
    ensures
        canonical_text(mac_value(s)) == uppercase_normalized(s),
{
    lemma_octets_of_parsed(s);
    let v = mac_value(s);
    assert forall|i: int| 0 <= i < 17 implies canonical_char(v, i) == uppercase_normalized(s)[i] by {
        if i % 3 != 2 {
            let k = i / 3;
            lemma_octet_halves(s, k);
            assert(octet_of_value(v, k) == octet_at(s, k));
            lemma_hex_digit_round_trip(s[i]);
        }
    }
    assert(canonical_text(v) =~= uppercase_normalized(s));
}

/// The canonical text of every address is a valid text, and reads back as
/// the same address.
pub proof fn lemma_canonical_text_parses_back(v: nat)
    requires
        v <= MAC_MAX_VALUE,
    ensures
        is_valid_mac(canonical_text(v)),
        mac_value(canonical_text(v)) == v,
{
    let s = canonical_text(v);
    assert forall|i: int| 0 <= i < 17 implies #[trigger] well_placed(s, i) by {
        assert(s[i] == canonical_char(v, i));
    }
    assert forall|k: int| 0 <= k < 6 implies octet_at(s, k) == #[trigger] octet_of_value(v, k) by {
        assert(s[3 * k] == canonical_char(v, 3 * k));
        assert(s[3 * k + 1] == canonical_char(v, 3 * k + 1));
    }
    lemma_wire_bytes_hold_value(v);
}

/// The value of a text depends neither on the case of its digits nor on
/// which separator it uses.
pub proof fn lemma_value_ignores_case_and_separator(s: Seq<char>)
    requires
        is_valid_mac(s),
    ensures
        is_valid_mac(uppercase_normalized(s)),
        mac_value(uppercase_normalized(s)) == mac_value(s),
{
    lemma_canonical_text_of_parsed(s);
    lemma_octets_of_parsed(s);
    lemma_canonical_text_parses_back(mac_value(s));
}

/// Texts that are never a hardware address: one of another length than
/// seventeen (the empty text, one with an octet missing or added), one with
/// anything but a hexadecimal digit in a digit's place, one with anything but
/// `:` or `-` between octets, and one that mixes the two separators.
pub proof fn lemma_rejected_texts(s: Seq<char>, i: int)
    requires
        0 <= i < 17,
    ensures
        s.len() != 17 ==> !is_valid_mac(s),
        i % 3 != 2 && !is_hex_digit(s[i]) ==> !is_valid_mac(s),
        i % 3 == 2 && !is_separator(s[i]) ==> !is_valid_mac(s),
        i % 3 == 2 && s[i] != s[2] ==> !is_valid_mac(s),
{
    if is_valid_mac(s) {
        assert(well_placed(s, i));
    }
}

} // verus!
