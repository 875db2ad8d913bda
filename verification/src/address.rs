//! IPv4 addresses as 32-bit numbers, and their dotted decimal notation.

use vstd::prelude::*;
use vstd::string::*;
use crate::text::{
    all_digits, chars_of, decimal_text, decimal_value, first_piece_len, is_digit,
    lemma_decimal_text, push_decimal, read_digits, split, split_on, text_views, trim, trimmed,
};

verus! {

/// An IPv4 address, held as its 32-bit value with the first octet on top:
/// `10.0.0.5` is `0x0A00_0005`.
#[derive(Clone, Copy, Debug, PartialEq, Eq, Structural)]
pub struct Address {
    pub bits: u32,
}

/// The 32-bit value made of four octets, the first on top.
pub open spec fn bits_of_octets(a: u8, b: u8, c: u8, d: u8) -> u32 {
    (a as u32 * 0x100_0000 + b as u32 * 0x1_0000 + c as u32 * 0x100 + d as u32) as u32
}

/// The number that one part of a dotted address writes: one to three decimal
/// digits, no zero in front of another digit, at most 255.
pub open spec fn parse_octet(s: Seq<char>) -> Option<u8> {
    if 1 <= s.len() <= 3 && all_digits(s) && (s.len() == 1 || s.first() != '0') && decimal_value(s)
        <= 255 {
        Some(decimal_value(s) as u8)
    } else {
        None
    }
}

/// The address that a text in dotted decimal notation writes: four parts
/// with a `.` between them, each an octet; `None` for any other text.
pub open spec fn parse_address(s: Seq<char>) -> Option<Address> {
    let parts = split(s, '.');
    if parts.len() == 4 && parse_octet(parts[0]) is Some && parse_octet(parts[1]) is Some
        && parse_octet(parts[2]) is Some && parse_octet(parts[3]) is Some {
        Some(
            Address {
                bits: bits_of_octets(
                    parse_octet(parts[0])->0,
                    parse_octet(parts[1])->0,
                    parse_octet(parts[2])->0,
                    parse_octet(parts[3])->0,
                ),
            },
        )
    } else {
        None
    }
}

/// Reads one part of a dotted address.
fn read_octet(v: &Vec<char>) -> (r: Option<u8>)
    ensures
        r == parse_octet(v@),
{
    let n = v.len();
    if n == 0 || n > 3 {
        return None;
    }
    if n > 1 && v[0] == '0' {
        return None;
    }
    assert(v@.skip(0) =~= v@);
    match read_digits(v, 0, 255) {
        Some(value) => Some(value as u8),
        None => None,
    }
}

impl Address {
    /// The octet at position `k`, counted from the first (0) to the last (3).
    pub open spec fn octet(self, k: int) -> nat {
        if k == 0 {
            (self.bits / 0x100_0000) as nat
        } else if k == 1 {
            ((self.bits / 0x1_0000) % 0x100) as nat
        } else if k == 2 {
            ((self.bits / 0x100) % 0x100) as nat
        } else {
            (self.bits % 0x100) as nat
        }
    }

    /// The address in dotted decimal notation.
    pub open spec fn dotted(self) -> Seq<char> {
        decimal_text(self.octet(0)) + seq!['.'] + decimal_text(self.octet(1)) + seq!['.']
            + decimal_text(self.octet(2)) + seq!['.'] + decimal_text(self.octet(3))
    }

    /// The address with the given 32-bit value.
    pub fn from_bits(bits: u32) -> (a: Address)
        ensures
            a.bits == bits,
    {
        Address { bits }
    }

    /// The 32-bit value of the address.
    pub fn to_bits(&self) -> (bits: u32)
        ensures
            bits == self.bits,
    {
        self.bits
    }

    /// The address `a.b.c.d`.
    pub fn from_octets(a: u8, b: u8, c: u8, d: u8) -> (r: Address)
        ensures
            r.bits == bits_of_octets(a, b, c, d),
            r.octet(0) == a,
            r.octet(1) == b,
            r.octet(2) == c,
            r.octet(3) == d,
    {
        Address { bits: a as u32 * 0x100_0000 + b as u32 * 0x1_0000 + c as u32 * 0x100 + d as u32 }
    }

    /// The four octets of the address, the first one first.
    pub fn octets(&self) -> (r: (u8, u8, u8, u8))
        ensures
            r.0 == self.octet(0),
            r.1 == self.octet(1),
            r.2 == self.octet(2),
            r.3 == self.octet(3),
            self.bits == bits_of_octets(r.0, r.1, r.2, r.3),
    {
        let a = (self.bits / 0x100_0000) as u8;
        let b = ((self.bits / 0x1_0000) % 0x100) as u8;
        let c = ((self.bits / 0x100) % 0x100) as u8;
        let d = (self.bits % 0x100) as u8;
        (a, b, c, d)
    }

    /// Writes the address in dotted decimal notation at the end of `out`.
    pub fn push_text(&self, out: &mut String)
        ensures
            final(out)@ == old(out)@ + self.dotted(),
    {
        let (a, b, c, d) = self.octets();
        proof {
            reveal_strlit(".");
        }
        push_decimal(out, a as u32);
        out.append(".");
        push_decimal(out, b as u32);
        out.append(".");
        push_decimal(out, c as u32);
        out.append(".");
        push_decimal(out, d as u32);
        assert(final(out)@ =~= old(out)@ + self.dotted());
    }

    /// The address in dotted decimal notation.
    pub fn to_text(&self) -> (r: String)
        ensures
            r@ == self.dotted(),
    {
        let mut out = String::new();
        self.push_text(&mut out);
        assert(out@ =~= self.dotted());
        out
    }

    /// Reads an address in dotted decimal notation.
    pub fn from_chars(v: &Vec<char>) -> (r: Option<Address>)
        ensures
            r == parse_address(v@),
    {
        let parts = split_on(v, '.');
        if parts.len() != 4 {
            return None;
        }
        assert(text_views(parts@)[0] == parts[0]@);
        assert(text_views(parts@)[1] == parts[1]@);
        assert(text_views(parts@)[2] == parts[2]@);
        assert(text_views(parts@)[3] == parts[3]@);
        let a = match read_octet(&parts[0]) {
            Some(a) => a,
            None => {
                return None;
            },
        };
        let b = match read_octet(&parts[1]) {
            Some(b) => b,
            None => {
                return None;
            },
        };
        let c = match read_octet(&parts[2]) {
            Some(c) => c,
            None => {
                return None;
            },
        };
        let d = match read_octet(&parts[3]) {
            Some(d) => d,
            None => {
                return None;
            },
        };
        Some(Address::from_octets(a, b, c, d))
    }

    /// Reads an address in dotted decimal notation.
    pub fn from_text(text: &str) -> (r: Option<Address>)
        ensures
            r == parse_address(text@),
    {
        let v = chars_of(text);
        Address::from_chars(&v)
    }

    /// Reads an address from a line that was typed: the white space around it
    /// does not count.
    pub fn from_line(line: &str) -> (r: Option<Address>)
        ensures
            r == parse_address(trimmed(line@)),
    {
        let v = trim(&chars_of(line));
        Address::from_chars(&v)
    }
}

/// A text without the separator is its own first piece.
proof fn lemma_first_piece_whole(s: Seq<char>, sep: char)
    requires
        forall|i: int| 0 <= i < s.len() ==> s[i] != sep,
    ensures
        first_piece_len(s, sep) == s.len(),
        split(s, sep) == seq![s],
    decreases s.len(),
{
    if s.len() > 0 {
        let rest = s.drop_first();
        assert forall|i: int| 0 <= i < rest.len() implies rest[i] != sep by {
            assert(rest[i] == s[i + 1]);
        }
        lemma_first_piece_whole(rest, sep);
    }
}

/// A text without the separator, followed by the separator and more text, is
/// the first piece of the whole, and the pieces of the rest follow it.
proof fn lemma_split_first(head: Seq<char>, sep: char, rest: Seq<char>)
    requires
        forall|i: int| 0 <= i < head.len() ==> head[i] != sep,
    ensures
        first_piece_len(head + seq![sep] + rest, sep) == head.len(),
        split(head + seq![sep] + rest, sep) == seq![head] + split(rest, sep),
    decreases head.len(),
{
    let whole = head + seq![sep] + rest;
    if head.len() > 0 {
        let tail = head.drop_first();
        assert forall|i: int| 0 <= i < tail.len() implies tail[i] != sep by {
            assert(tail[i] == head[i + 1]);
        }
        lemma_split_first(tail, sep, rest);
        assert(whole.drop_first() =~= tail + seq![sep] + rest);
        assert(whole.first() == head[0]);
    } else {
        assert(whole.first() == sep);
    }
    assert(whole.take(head.len() as int) =~= head);
    assert(whole.skip(head.len() as int + 1) =~= rest);
}

/// What is written for an octet reads back as that octet.
proof fn lemma_octet_round_trip(octet: nat)
    requires
        octet <= 255,
    ensures
        parse_octet(decimal_text(octet)) == Some(octet as u8),
        forall|i: int| 0 <= i < decimal_text(octet).len() ==> decimal_text(octet)[i] != '.',
{
    lemma_decimal_text(octet);
    assert forall|i: int| 0 <= i < decimal_text(octet).len() implies decimal_text(octet)[i]
        != '.' by {
        assert(is_digit(decimal_text(octet)[i]));
    }
}

/// The octets of an address make up its value.
proof fn lemma_octets_compose(address: Address)
    ensures
        address.octet(0) <= 255,
        address.octet(1) <= 255,
        address.octet(2) <= 255,
        address.octet(3) <= 255,
        bits_of_octets(
            address.octet(0) as u8,
            address.octet(1) as u8,
            address.octet(2) as u8,
            address.octet(3) as u8,
        ) == address.bits,
{
}

/// The pieces of a dotted address are what is written for its four octets.
proof fn lemma_dotted_pieces(address: Address)
    ensures
        split(address.dotted(), '.') == seq![
            decimal_text(address.octet(0)),
            decimal_text(address.octet(1)),
            decimal_text(address.octet(2)),
            decimal_text(address.octet(3)),
        ],
{
    let a = decimal_text(address.octet(0));
    let b = decimal_text(address.octet(1));
    let c = decimal_text(address.octet(2));
    let d = decimal_text(address.octet(3));
    lemma_octets_compose(address);
    lemma_octet_round_trip(address.octet(0));
    lemma_octet_round_trip(address.octet(1));
    lemma_octet_round_trip(address.octet(2));
    lemma_octet_round_trip(address.octet(3));
    let tail2 = c + seq!['.'] + d;
    let tail1 = b + seq!['.'] + tail2;
    assert(address.dotted() =~= a + seq!['.'] + tail1);
    lemma_first_piece_whole(d, '.');
    lemma_split_first(c, '.', d);
    assert(split(tail2, '.') =~= seq![c, d]);
    lemma_split_first(b, '.', tail2);
    assert(split(tail1, '.') =~= seq![b, c, d]);
    lemma_split_first(a, '.', tail1);
    assert(split(address.dotted(), '.') =~= seq![a, b, c, d]);
}

/// Reading and writing agree: the dotted decimal notation that is written
/// for an address is read back as that address.
pub proof fn lemma_address_round_trip(address: Address)
    ensures
        parse_address(address.dotted()) == Some(address),
{
    lemma_octets_compose(address);
    lemma_dotted_pieces(address);
    lemma_octet_round_trip(address.octet(0));
    lemma_octet_round_trip(address.octet(1));
    lemma_octet_round_trip(address.octet(2));
    lemma_octet_round_trip(address.octet(3));
}

} // verus!
