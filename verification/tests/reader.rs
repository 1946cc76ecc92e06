use otspec::reader::ReaderContext;
use otspec::wire::{
    push_i16, push_i32, push_i64, push_i8, push_u16, push_u24, push_u32, push_u64, push_u8,
};

#[test]
fn integers_are_written_most_significant_byte_first() {
    let mut out = Vec::new();
    push_u8(&mut out, 0x01);
    push_u16(&mut out, 0x0203);
    push_u24(&mut out, 0x040506);
    push_u32(&mut out, 0x0708090A);
    push_u64(&mut out, 0x0B0C0D0E0F101112);
    assert_eq!(
        out,
        vec![1, 2, 3, 4, 5, 6, 7, 8, 9, 10, 11, 12, 13, 14, 15, 16, 17, 18]
    );
}

#[test]
fn signed_integers_are_written_in_twos_complement() {
    let mut out = Vec::new();
    push_i8(&mut out, -1);
    push_i8(&mut out, i8::MIN);
    push_i16(&mut out, -2);
    push_i16(&mut out, i16::MIN);
    push_i32(&mut out, -3);
    push_i32(&mut out, i32::MAX);
    push_i64(&mut out, -4);
    push_i64(&mut out, i64::MIN);
    assert_eq!(
        out,
        vec![
            0xFF, 0x80, 0xFF, 0xFE, 0x80, 0x00, 0xFF, 0xFF, 0xFF, 0xFD, 0x7F, 0xFF, 0xFF, 0xFF,
            0xFF, 0xFF, 0xFF, 0xFF, 0xFF, 0xFF, 0xFF, 0xFC, 0x80, 0, 0, 0, 0, 0, 0, 0
        ]
    );
    let mut c = ReaderContext::new(&out);
    assert_eq!(c.read_i8(), Some(-1));
    assert_eq!(c.read_i8(), Some(i8::MIN));
    assert_eq!(c.read_i16(), Some(-2));
    assert_eq!(c.read_i16(), Some(i16::MIN));
    assert_eq!(c.read_i32(), Some(-3));
    assert_eq!(c.read_i32(), Some(i32::MAX));
    assert_eq!(c.read_i64(), Some(-4));
    assert_eq!(c.read_i64(), Some(i64::MIN));
    assert_eq!(c.remaining(), 0);
    assert_eq!(c.read_i8(), None);
}

#[test]
fn the_cursor_reads_in_order_and_never_past_the_end() {
    let bytes: Vec<u8> = (1..=18).collect();
    let mut c = ReaderContext::new(&bytes);
    assert_eq!(c.pos(), 0);
    assert_eq!(c.remaining(), 18);
    assert_eq!(c.read_u8(), Some(0x01));
    assert_eq!(c.read_u16(), Some(0x0203));
    assert_eq!(c.read_u24(), Some(0x040506));
    assert_eq!(c.read_u32(), Some(0x0708090A));
    assert_eq!(c.pos(), 10);
    // eight bytes are left: a ninth cannot be had
    assert_eq!(c.consume(9), None);
    assert!(!c.skip(9));
    assert_eq!(c.pos(), 10);
    assert_eq!(c.read_u64(), Some(0x0B0C0D0E0F101112));
    assert_eq!(c.pos(), 18);
    assert_eq!(c.read_u8(), None);
    assert_eq!(c.read_u16(), None);
    assert_eq!(c.read_u24(), None);
    assert_eq!(c.read_u32(), None);
    assert_eq!(c.read_u64(), None);
    assert_eq!(c.pos(), 18);
    assert!(c.skip(0));
    assert_eq!(c.consume(0), Some(&bytes[18..]));
}

#[test]
fn a_short_read_leaves_the_cursor_in_place() {
    let bytes = [0xAA, 0xBB, 0xCC];
    let mut c = ReaderContext::new(&bytes);
    assert_eq!(c.read_u32(), None);
    assert_eq!(c.pos(), 0);
    assert_eq!(c.read_u16(), Some(0xAABB));
    assert_eq!(c.read_u16(), None);
    assert_eq!(c.pos(), 2);
    assert_eq!(c.read_u8(), Some(0xCC));
}

#[test]
fn consume_skip_and_remainder() {
    let bytes = [1u8, 2, 3, 4, 5, 6];
    let mut c = ReaderContext::new(&bytes);
    assert_eq!(c.consume(2), Some(&bytes[..2]));
    assert!(c.skip(1));
    assert_eq!(c.pos(), 3);
    assert_eq!(c.read_remainder(), &bytes[3..]);
    assert_eq!(c.pos(), 6);
    assert_eq!(c.read_remainder(), &bytes[6..]);
    assert_eq!(c.remaining(), 0);
}
