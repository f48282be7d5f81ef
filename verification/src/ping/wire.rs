//! The packets of the Java edition: variable-length numbers, strings and frames.
use vstd::arithmetic::div_mod::lemma_div_denominator;
use vstd::arithmetic::power::{lemma_pow0, lemma_pow1, lemma_pow_positive, pow};
use vstd::prelude::*;
use vstd::utf8::*;

verus! {

/// A number in groups of seven bits, the lowest first; every byte but the last has its high bit
/// set.
pub open spec fn varint(value: nat) -> Seq<u8>
    decreases value,
{
    if value < 128 {
        seq![value as u8]
    } else {
        seq![(128 + value % 128) as u8] + varint(value / 128)
    }
}

/// The number at the start of a row of bytes, and the bytes behind it.
pub open spec fn read_varint(bytes: Seq<u8>) -> Option<(nat, Seq<u8>)>
    decreases bytes.len(),
{
    if bytes.len() == 0 {
        None
    } else if bytes[0] < 128 {
        Some((bytes[0] as nat, bytes.skip(1)))
    } else {
        match read_varint(bytes.skip(1)) {
            Some((high, rest)) => Some(((bytes[0] - 128 + 128 * high) as nat, rest)),
            None => None,
        }
    }
}

/// A length as it goes over the wire, where lengths have 32 bits.
pub open spec fn wire_len(len: nat) -> nat {
    len % 0x1_0000_0000
}

/// A string on the wire: the length of its UTF-8 form, then that form.
pub open spec fn wire_string(text: Seq<char>) -> Seq<u8> {
    varint(wire_len(encode_utf8(text).len())) + encode_utf8(text)
}

/// A packet on the wire: its length, then the packet.
pub open spec fn frame(packet: Seq<u8>) -> Seq<u8> {
    varint(wire_len(packet.len())) + packet
}

/// A number of 16 bits, the high byte first.
pub open spec fn wire_u16(value: u16) -> Seq<u8> {
    seq![(value / 256) as u8, (value % 256) as u8]
}

/// Appends a number in groups of seven bits.
pub fn write_varint(buf: &mut Vec<u8>, value: u32)
    ensures
        final(buf)@ == old(buf)@ + varint(value as nat),
{
    let mut value = value;
    let ghost start = value;
    loop
        invariant_except_break
            buf@ + varint(value as nat) == old(buf)@ + varint(start as nat),
        ensures
            buf@ == old(buf)@ + varint(start as nat),
        decreases value,
    {
        let low = (value & 0x7F) as u8;
        let high = value >> 7;
        let ghost before = buf@;
        assert(value & 0x7F == value % 128) by (bit_vector);
        assert(value >> 7 == value / 128) by (bit_vector);
        assert(low < 128 ==> low | 0x80 == 128 + low) by (bit_vector);
        if high != 0 {
            buf.push(low | 0x80);
            assert(buf@ + varint(high as nat) =~= before + varint(value as nat));
            value = high;
        } else {
            buf.push(low);
            assert(buf@ =~= before + varint(value as nat));
            break;
        }
    }
}

/// Appends a string: the length of its UTF-8 form, then that form.
pub fn write_string(buf: &mut Vec<u8>, s: &str)
    ensures
        final(buf)@ == old(buf)@ + wire_string(s@),
{
    let bytes = s.as_bytes();
    let len = bytes.len() as u64;
    assert(len as u32 == len % 0x1_0000_0000) by (bit_vector);
    write_varint(buf, #[verifier::truncate] (len as u32));
    let ghost before = buf@;
    buf.extend_from_slice(bytes);
    assert(buf@ =~= before + bytes@);
    assert(buf@ =~= old(buf)@ + wire_string(s@));
}

/// A packet behind its length.
pub fn framed(packet: Vec<u8>) -> (bytes: Vec<u8>)
    ensures
        bytes@ == frame(packet@),
{
    let mut bytes: Vec<u8> = Vec::new();
    let len = packet.len() as u64;
    assert(len as u32 == len % 0x1_0000_0000) by (bit_vector);
    write_varint(&mut bytes, #[verifier::truncate] (len as u32));
    let mut packet = packet;
    bytes.append(&mut packet);
    bytes
}

/// What is written as a variable-length number is read back, whatever bytes follow it.
pub proof fn law_varint_round_trip(value: nat, rest: Seq<u8>)
    ensures
        read_varint(varint(value) + rest) == Some((value, rest)),
    decreases value,
{
    let bytes = varint(value) + rest;
    if value < 128 {
        assert(bytes.skip(1) =~= rest);
    } else {
        law_varint_round_trip(value / 128, rest);
        assert(bytes.skip(1) =~= varint(value / 128) + rest);
    }
}

/// No variable-length number is the start of another one.
pub proof fn law_varint_prefix_free(a: nat, b: nat, after_a: Seq<u8>, after_b: Seq<u8>)
    requires
        varint(a) + after_a == varint(b) + after_b,
    ensures
        a == b,
        after_a == after_b,
{
    law_varint_round_trip(a, after_a);
    law_varint_round_trip(b, after_b);
}

/// A 32-bit number takes between one and five bytes.
pub proof fn law_varint_length(value: u32)
    ensures
        1 <= varint(value as nat).len() <= 5,
{
    reveal_with_fuel(varint, 5);
}

/// The string at the start of a row of bytes, and the bytes behind it.
pub open spec fn read_wire_string(bytes: Seq<u8>) -> Option<(Seq<char>, Seq<u8>)> {
    match read_varint(bytes) {
        Some((len, rest)) => if len <= rest.len() && valid_utf8(rest.take(len as int)) {
            Some((decode_utf8(rest.take(len as int)), rest.skip(len as int)))
        } else {
            None
        },
        None => None,
    }
}

/// The packet at the start of a row of bytes, and the bytes behind it.
pub open spec fn read_frame(bytes: Seq<u8>) -> Option<(Seq<u8>, Seq<u8>)> {
    match read_varint(bytes) {
        Some((len, rest)) => if len <= rest.len() {
            Some((rest.take(len as int), rest.skip(len as int)))
        } else {
            None
        },
        None => None,
    }
}

/// What is written as a string is read back, whatever bytes follow it, where its length fits the
/// 32 bits of the wire.
pub proof fn law_wire_string_round_trip(text: Seq<char>, rest: Seq<u8>)
    requires
        encode_utf8(text).len() < 0x1_0000_0000,
    ensures
        read_wire_string(wire_string(text) + rest) == Some((text, rest)),
{
    let bytes = encode_utf8(text);
    assert(wire_string(text) + rest =~= varint(bytes.len()) + (bytes + rest));
    law_varint_round_trip(bytes.len(), bytes + rest);
    assert((bytes + rest).take(bytes.len() as int) =~= bytes);
    assert((bytes + rest).skip(bytes.len() as int) =~= rest);
    encode_utf8_valid_utf8(text);
    encode_utf8_decode_utf8(text);
}

/// What is framed is read back, whatever bytes follow it, where its length fits the 32 bits of
/// the wire.
pub proof fn law_frame_round_trip(packet: Seq<u8>, rest: Seq<u8>)
    requires
        packet.len() < 0x1_0000_0000,
    ensures
        read_frame(frame(packet) + rest) == Some((packet, rest)),
{
    assert(frame(packet) + rest =~= varint(packet.len()) + (packet + rest));
    law_varint_round_trip(packet.len(), packet + rest);
    assert((packet + rest).take(packet.len() as int) =~= packet);
    assert((packet + rest).skip(packet.len() as int) =~= rest);
}

/// The bytes of a variable-length number hold its digits to the base 128, the lowest first; all but
/// the last have their high bit set, and there are no more of them than the number needs.
pub proof fn law_varint_digits(value: nat)
    ensures
        ({
            let bytes = varint(value);
            &&& bytes.len() > 0
            &&& forall|i: int|
                0 <= i < bytes.len() ==> (#[trigger] bytes[i]) as int % 128 == (value as int / pow(
                    128,
                    i as nat,
                )) % 128
            &&& forall|i: int| 0 <= i < bytes.len() - 1 ==> #[trigger] bytes[i] >= 128
            &&& bytes.last() < 128
            &&& bytes.len() > 1 ==> bytes.last() != 0
            &&& value as int / pow(128, bytes.len()) == 0
        }),
    decreases value,
{
    reveal(pow);
    let bytes = varint(value);
    lemma_pow0(128);
    lemma_pow1(128);
    assert(value as int / 1 == value as int);
    if value < 128 {
        assert(bytes =~= seq![value as u8]);
    } else {
        let rest = varint(value / 128);
        law_varint_digits(value / 128);
        assert(bytes =~= seq![(128 + value % 128) as u8] + rest);
        assert forall|i: int| 0 <= i < bytes.len() implies (#[trigger] bytes[i]) as int % 128 == (
        value as int / pow(128, i as nat)) % 128 by {
            if i > 0 {
                assert(bytes[i] == rest[i - 1]);
                lemma_pow_positive(128, (i - 1) as nat);
                lemma_div_denominator(value as int, 128, pow(128, (i - 1) as nat));
                assert(pow(128, i as nat) == 128 * pow(128, (i - 1) as nat));
            }
        }
        assert forall|i: int| 0 <= i < bytes.len() - 1 implies #[trigger] bytes[i] >= 128 by {
            if i > 0 {
                assert(bytes[i] == rest[i - 1]);
            }
        }
        assert(bytes.last() == rest.last());
        lemma_pow_positive(128, rest.len());
        lemma_div_denominator(value as int, 128, pow(128, rest.len()));
        assert(pow(128, bytes.len()) == 128 * pow(128, rest.len()));
        if rest.len() == 1 {
            assert(rest[0] as int % 128 == ((value / 128) as int / pow(128, 0)) % 128);
            assert((value / 128) as int / pow(128, 1) == 0);
            assert((value / 128) as int / 1 == (value / 128) as int);
        }
    }
}

/// A string and a packet stand on the wire unchanged, behind the low 32 bits of their length.
pub proof fn law_wire_layout(text: Seq<char>, packet: Seq<u8>)
    ensures
        ({
            let bytes = encode_utf8(text);
            wire_string(text) == varint((bytes.len() % 4294967296) as nat) + bytes
        }),
        frame(packet) == varint((packet.len() % 4294967296) as nat) + packet,
{
}

/// A number of 16 bits takes two bytes, of which the first counts 256 times.
pub proof fn law_wire_u16(value: u16)
    ensures
        wire_u16(value).len() == 2,
        wire_u16(value)[0] * 256 + wire_u16(value)[1] == value,
{
}

} // verus!
