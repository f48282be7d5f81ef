use minecraftpingws::ping::wire::{framed, write_string, write_varint};

fn varint(value: u32) -> Vec<u8> {
    let mut buf = Vec::new();
    write_varint(&mut buf, value);
    buf
}

#[test]
fn varints_have_seven_bits_to_a_byte() {
    assert_eq!(varint(0), vec![0x00]);
    assert_eq!(varint(1), vec![0x01]);
    assert_eq!(varint(127), vec![0x7f]);
    assert_eq!(varint(128), vec![0x80, 0x01]);
    assert_eq!(varint(300), vec![0xac, 0x02]);
    assert_eq!(varint(25565), vec![0xdd, 0xc7, 0x01]);
    assert_eq!(varint(2097151), vec![0xff, 0xff, 0x7f]);
    assert_eq!(varint(2147483647), vec![0xff, 0xff, 0xff, 0xff, 0x07]);
    assert_eq!(varint(u32::MAX), vec![0xff, 0xff, 0xff, 0xff, 0x0f]);
}

#[test]
fn varints_are_appended() {
    let mut buf = vec![9, 8];
    write_varint(&mut buf, 128);
    assert_eq!(buf, vec![9, 8, 0x80, 0x01]);
}

#[test]
fn strings_go_behind_their_length_in_bytes() {
    let mut buf = vec![7];
    write_string(&mut buf, "h\u{e9}");
    assert_eq!(buf, vec![7, 3, b'h', 0xc3, 0xa9]);
    let mut empty = Vec::new();
    write_string(&mut empty, "");
    assert_eq!(empty, vec![0]);
}

#[test]
fn long_strings_have_longer_lengths() {
    let mut buf = Vec::new();
    write_string(&mut buf, &"x".repeat(200));
    assert_eq!(buf.len(), 202);
    assert_eq!(buf[0..3], [0xc8, 0x01, b'x']);
}

#[test]
fn frames_hold_the_packet_behind_its_length() {
    assert_eq!(framed(vec![]), vec![0]);
    assert_eq!(framed(vec![5, 6, 7]), vec![3, 5, 6, 7]);
    let long = framed(vec![1; 128]);
    assert_eq!(long.len(), 130);
    assert_eq!(long[0..2], [0x80, 0x01]);
}
