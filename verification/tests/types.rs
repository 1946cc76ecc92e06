use otspec::error::{DecodeFault, DeserializationError, EncodeFault, Place, SerializationError};
use otspec::reader::ReaderContext;
use otspec::types::{uint24, Fixed, Version16Dot16, F2DOT14, LONGDATETIME};

/// Round half up: `floor(x + 0.5)`.
fn ot_round(value: f32) -> i32 {
    (value + 0.5).floor() as i32
}

/// The version that a float stands for: its fractional part times ten,
/// truncated, is the minor number.
fn version_from_num(float: f32) -> Version16Dot16 {
    let major = float.trunc() as u16;
    let minor = (float.fract() * 10.) as u8;
    assert!(minor <= 9);
    Version16Dot16::from_major_minor(major, minor)
}

#[test]
fn version_16_repr() {
    let version = version_from_num(1.9);
    assert_eq!(version.major(), 1);
    assert_eq!(version.minor(), 9);
    let exp = 0x00019000;
    assert_eq!(version.as_packed(), exp, "found: 0x{:08x}", version.as_packed());

    let version = Version16Dot16::from_major_minor(505, 2);
    assert_eq!(version.major(), 505);
    assert_eq!(version.minor(), 2);
}

#[test]
fn version_keeps_major_and_minor() {
    for minor in 0..=9u8 {
        for major in [0u16, 1, 2, 505, 0x7FFF, 0xFFFF] {
            let version = Version16Dot16::from_major_minor(major, minor);
            assert_eq!(version.major(), major);
            assert_eq!(version.minor(), minor);
            assert_eq!(
                version.as_packed(),
                ((major as u32) << 16) | ((minor as u32) << 12)
            );
        }
    }
}

#[test]
fn version_takes_the_low_nibble_of_the_minor() {
    let version = Version16Dot16::from_major_minor(3, 0x15);
    assert_eq!(version.minor(), 5);
    assert_eq!(version.as_packed(), 0x0003_5000);
}

#[test]
fn version_wire_form() {
    let version = Version16Dot16::from_major_minor(1, 9);
    let mut data = vec![0xAA];
    version.to_bytes(&mut data).unwrap();
    assert_eq!(data, vec![0xAA, 0x00, 0x01, 0x90, 0x00]);
    assert_eq!(version.ot_binary_size(), 4);
    let mut c = ReaderContext::new(&data[1..]);
    assert_eq!(Version16Dot16::from_bytes(&mut c), Ok(version));
    assert_eq!(c.remaining(), 0);
    assert_eq!(Version16Dot16::default().as_packed(), 0);
}

#[test]
fn uint24_bound() {
    let mut data = Vec::new();
    let largest = uint24::from((1u32 << 24) - 1);
    assert_eq!(largest.to_bytes(&mut data), Ok(()));
    assert_eq!(data, vec![0xFF, 0xFF, 0xFF]);
    let mut c = ReaderContext::new(&data);
    assert_eq!(uint24::from_bytes(&mut c), Ok(largest));

    let mut data = vec![1, 2];
    let too_large = uint24::from(1u32 << 24);
    assert_eq!(
        too_large.to_bytes(&mut data),
        Err(SerializationError {
            place: Place::Value,
            fault: EncodeFault::Uint24OutOfRange(1 << 24)
        })
    );
    assert_eq!(data, vec![1, 2]);
    assert!(uint24::from(u32::MAX).to_bytes(&mut data).is_err());
}

#[test]
fn uint24_wire_form() {
    let mut data = Vec::new();
    uint24::from(0x012345).to_bytes(&mut data).unwrap();
    assert_eq!(data, vec![0x01, 0x23, 0x45]);
    assert_eq!(uint24::from(7).ot_binary_size(), 3);
    assert_eq!(u32::from(uint24::from(0x012345)), 0x012345);
    let mut c = ReaderContext::new(&[0xAB, 0xCD, 0xEF, 0x01]);
    assert_eq!(u32::from(uint24::from_bytes(&mut c).unwrap()), 0xABCDEF);
    assert_eq!(c.pos(), 3);
    assert_eq!(
        uint24::from_bytes(&mut c),
        Err(DeserializationError { place: Place::Value, fault: DecodeFault::ShortRead })
    );
    assert_eq!(c.pos(), 3);
}

#[test]
fn fixed_wire_form() {
    let one_and_a_half = Fixed::from_packed(ot_round(1.5 * 65536.0));
    assert_eq!(one_and_a_half.as_packed(), 0x0001_8000);
    let mut data = Vec::new();
    one_and_a_half.to_bytes(&mut data).unwrap();
    assert_eq!(data, vec![0x00, 0x01, 0x80, 0x00]);
    let minus_one = Fixed::from_packed(ot_round(-1.0 * 65536.0));
    let mut data = Vec::new();
    minus_one.to_bytes(&mut data).unwrap();
    assert_eq!(data, vec![0xFF, 0xFF, 0x00, 0x00]);
    let mut c = ReaderContext::new(&data);
    assert_eq!(Fixed::from_bytes(&mut c), Ok(minus_one));
    assert_eq!(minus_one.ot_binary_size(), 4);
}

#[test]
fn fixed_point_rounding_is_idempotent() {
    for value in [0.0f32, 1.0, -1.0, 0.3, 1.9, -0.123456, 1.99997, 100.25] {
        let packed = Fixed::from_packed(ot_round(value * 65536.0)).as_packed();
        let rounded = packed as f32 / 65536.0;
        assert_eq!(Fixed::from_packed(ot_round(rounded * 65536.0)).as_packed(), packed);
    }
    for value in [0.0f32, 1.0, -1.0, 0.3, 1.9, -0.123456, 1.99993, -2.0] {
        let packed = F2DOT14::from_scaled(ot_round(value * 16384.0)).as_packed().unwrap();
        let rounded = F2DOT14::from_packed(packed).scaled() as f32 / 16384.0;
        assert_eq!(F2DOT14::from_scaled(ot_round(rounded * 16384.0)).as_packed().unwrap(), packed);
    }
}

#[test]
fn f2dot14_rounds_half_up() {
    // 0.5 / 16384 lies halfway between the packed values 0 and 1
    assert_eq!(F2DOT14::from_scaled(ot_round(0.5)).as_packed().unwrap(), 1);
    assert_eq!(F2DOT14::from_scaled(ot_round(-0.5)).as_packed().unwrap(), 0);
    assert_eq!(F2DOT14::from_scaled(ot_round(1.0 * 16384.0)).as_packed().unwrap(), 0x4000);
}

#[test]
fn f2dot14_range() {
    let mut data = Vec::new();
    let largest = F2DOT14::from_scaled(32767);
    assert_eq!(largest.to_bytes(&mut data), Ok(()));
    assert_eq!(data, vec![0x7F, 0xFF]);
    let smallest = F2DOT14::from_scaled(ot_round(-2.0 * 16384.0));
    let mut data = Vec::new();
    assert_eq!(smallest.to_bytes(&mut data), Ok(()));
    assert_eq!(data, vec![0x80, 0x00]);
    let mut c = ReaderContext::new(&data);
    assert_eq!(F2DOT14::from_bytes(&mut c), Ok(smallest));

    let two = F2DOT14::from_scaled(ot_round(2.0 * 16384.0));
    assert!(two.as_packed().is_err());
    let mut data = vec![9];
    assert_eq!(
        two.to_bytes(&mut data),
        Err(SerializationError {
            place: Place::Value,
            fault: EncodeFault::F2Dot14OutOfRange(32768)
        })
    );
    assert_eq!(data, vec![9]);
    assert_eq!(two.ot_binary_size(), 2);
}

#[test]
fn f2dot14_equality_and_order_go_by_the_packed_form() {
    let a = F2DOT14::from_scaled(ot_round(0.30000 * 16384.0));
    let b = F2DOT14::from_scaled(ot_round(0.30001 * 16384.0));
    assert_eq!(a, b);
    let c = F2DOT14::from_scaled(ot_round(0.31 * 16384.0));
    assert!(a < c);
    assert!(F2DOT14::from_packed(-1) < F2DOT14::from_packed(0));
    assert_eq!(F2DOT14::from_packed(5).scaled(), 5);
}

#[test]
fn epoch_fixture() {
    let date = chrono::NaiveDate::from_ymd_opt(1904, 1, 1)
        .unwrap()
        .and_hms_opt(0, 0, 0)
        .unwrap();
    let epoch = LONGDATETIME::from_timestamp(date.and_utc().timestamp()).unwrap();
    let mut data = Vec::new();
    epoch.to_bytes(&mut data).unwrap();
    assert_eq!(data, vec![0u8; 8]);

    let mut c = ReaderContext::new(&data);
    let read = LONGDATETIME::from_bytes(&mut c).unwrap();
    assert_eq!(read, epoch);
    let back = chrono::DateTime::from_timestamp(read.timestamp().unwrap(), 0).unwrap();
    assert_eq!(back.naive_utc(), date);
    assert_eq!(LONGDATETIME::from_ymd_hms(1904, 1, 1, 0, 0, 0), Some(epoch));
    assert_eq!(epoch.seconds(), 0);
    assert_eq!(epoch.ot_binary_size(), 8);
}

#[test]
fn long_date_counts_seconds_from_1904() {
    assert_eq!(LONGDATETIME::epoch(), -2_082_844_800);
    let unix_epoch = LONGDATETIME::from_ymd_hms(1970, 1, 1, 0, 0, 0).unwrap();
    assert_eq!(unix_epoch.seconds(), 2_082_844_800);
    assert_eq!(unix_epoch.timestamp(), Some(0));
    let mut data = Vec::new();
    unix_epoch.to_bytes(&mut data).unwrap();
    assert_eq!(data, vec![0, 0, 0, 0, 0x7C, 0x25, 0xB0, 0x80]);

    let before = LONGDATETIME::from_ymd_hms(1903, 12, 31, 23, 59, 59).unwrap();
    assert_eq!(before.seconds(), -1);
    let mut data = Vec::new();
    before.to_bytes(&mut data).unwrap();
    assert_eq!(data, vec![0xFF; 8]);
    let mut c = ReaderContext::new(&data);
    assert_eq!(LONGDATETIME::from_bytes(&mut c), Ok(before));

    let date = chrono::NaiveDate::from_ymd_opt(2021, 3, 4).unwrap().and_hms_opt(5, 6, 7).unwrap();
    let value = LONGDATETIME::from_ymd_hms(2021, 3, 4, 5, 6, 7).unwrap();
    assert_eq!(value.timestamp(), Some(date.and_utc().timestamp()));
    assert_eq!(LONGDATETIME::from_seconds(value.seconds()), value);
}

#[test]
fn long_date_rejects_what_the_calendar_lacks() {
    assert_eq!(LONGDATETIME::from_ymd_hms(2021, 2, 29, 0, 0, 0), None);
    assert_eq!(LONGDATETIME::from_ymd_hms(2021, 13, 1, 0, 0, 0), None);
    assert_eq!(LONGDATETIME::from_ymd_hms(2021, 1, 1, 24, 0, 0), None);
    assert_eq!(LONGDATETIME::from_timestamp(i64::MAX), None);
    assert_eq!(LONGDATETIME::from_seconds(i64::MIN).timestamp(), None);
    assert_eq!(
        LONGDATETIME::from_timestamp(i64::MAX - 2_082_844_800).map(|d| d.seconds()),
        Some(i64::MAX)
    );
}
