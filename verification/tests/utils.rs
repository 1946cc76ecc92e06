use otspec::unicode_ranges::{glyph_unicode_range, unicode_ranges, OS2_UNICODE_RANGES};
use otspec::utils::{int_list_to_num, BitInt};
use std::collections::HashSet;

#[test]
fn int_list_sets_the_listed_bits() {
    assert_eq!(int_list_to_num(&[]), 0);
    assert_eq!(int_list_to_num(&[0]), 1);
    assert_eq!(int_list_to_num(&[31]), 0x8000_0000);
    assert_eq!(int_list_to_num(&[0, 1, 4, 31]), 0x8000_0013);
    assert_eq!(int_list_to_num(&[4, 1, 4, 1]), 0x12);
}

#[test]
fn bit_int_collects_bits() {
    assert_eq!(BitInt::new().to_int(), 0);
    let mut bits = BitInt::new();
    bits.push(3);
    bits.push(0);
    bits.push(3);
    bits.push(31);
    assert_eq!(bits.to_int(), 0x8000_0009);
}

#[test]
fn binary_search_in_disjoint_ranges() {
    let ranges = [
        (0, "a", 0x00, 0x0F),
        (1, "b", 0x10, 0x1F),
        (2, "c", 0x30, 0x3F),
        (3, "d", 0x40, 0x40),
    ];
    assert_eq!(glyph_unicode_range(&ranges, 0x00), 0);
    assert_eq!(glyph_unicode_range(&ranges, 0x0F), 0);
    assert_eq!(glyph_unicode_range(&ranges, 0x10), 1);
    assert_eq!(glyph_unicode_range(&ranges, 0x3F), 2);
    assert_eq!(glyph_unicode_range(&ranges, 0x40), 3);
    assert_eq!(glyph_unicode_range(&ranges, 0x20), i32::MIN);
    assert_eq!(glyph_unicode_range(&ranges, 0x41), i32::MIN);
    assert_eq!(glyph_unicode_range(&ranges, -1), i32::MIN);
    assert_eq!(glyph_unicode_range(&[], 5), i32::MIN);
}

#[test]
fn the_table_has_every_range() {
    assert_eq!(OS2_UNICODE_RANGES.len(), 169);
    assert_eq!(OS2_UNICODE_RANGES[0], (0, "Basic Latin", 0x0000, 0x007F));
    assert_eq!(OS2_UNICODE_RANGES[168], (122, "Mahjong Tiles", 0x1F000, 0x1F02F));
}

#[test]
fn unicode_ranges_of_code_points() {
    let unicodes = vec![234, 110, 111, 112, 113, 512, 1000, 0x101D5];
    let expected: HashSet<i32> = [0, 1, 3, 7, 120].into_iter().collect();
    assert_eq!(unicode_ranges(unicodes), expected);
    assert_eq!(unicode_ranges(vec![]), HashSet::new());
    // Hangul Syllables, and a code point before every range
    let expected: HashSet<i32> = [56, i32::MIN].into_iter().collect();
    assert_eq!(unicode_ranges(vec![0xAC00, -5, 0xD7AF]), expected);
}
