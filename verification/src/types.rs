//! The wire-format value types: a 24-bit integer, two fixed-point numbers, a
//! packed version and an epoch-relative date.
//!
//! Each is a type of its own with an explicit packed form, so that its range
//! and rounding rules cannot be lost in a plain integer.

use vstd::prelude::*;
use vstd::std_specs::convert::FromSpecImpl;
use crate::error::{DecodeFault, DeserializationError, EncodeFault, Place, SerializationError};
use crate::reader::ReaderContext;
use crate::wire::{
    has_bytes,
    i16_at,
    i16_bytes,
    i32_at,
    i32_bytes,
    i64_at,
    i64_bytes,
    push_i16,
    push_i32,
    push_i64,
    push_u24,
    push_u32,
    lemma_u16_round_trip,
    lemma_u24_round_trip,
    lemma_u32_round_trip,
    lemma_u64_round_trip,
    stands_at,
    u24_at,
    u24_bytes,
    u32_at,
    u32_bytes,
    unsigned16,
    unsigned32,
    unsigned64,
};

verus! {

#[allow(non_camel_case_types)]
pub type uint8 = u8;

#[allow(non_camel_case_types)]
pub type uint16 = u16;

#[allow(non_camel_case_types)]
pub type uint32 = u32;

#[allow(non_camel_case_types)]
pub type int16 = i16;

/// A signed distance in font design units.
#[allow(clippy::upper_case_acronyms)]
pub type FWORD = i16;

/// An unsigned distance in font design units.
#[allow(clippy::upper_case_acronyms)]
pub type UFWORD = u16;

/// The index of a glyph.
pub type GlyphID = u16;

/// The error of a single value that has no field around it.
pub open spec fn value_fault(fault: EncodeFault) -> SerializationError {
    SerializationError { place: Place::Value, fault }
}

/// The error of a read that found too few bytes for a single value.
pub open spec fn short_read() -> DeserializationError {
    DeserializationError { place: Place::Value, fault: DecodeFault::ShortRead }
}

/// An unsigned integer that takes three bytes on the wire.
///
/// Any 32-bit value can be held; one of `2^24` or more cannot be serialized.
#[derive(Debug, PartialEq, Eq, Clone, Copy, Structural)]
#[allow(non_camel_case_types)]
pub struct uint24(u32);

impl View for uint24 {
    type V = u32;

    closed spec fn view(&self) -> u32 {
        self.0
    }
}

impl uint24 {
    /// The wire form: three bytes, most significant first, or a range error
    /// for a value of `2^24` or more.
    pub open spec fn wire(&self) -> Result<Seq<u8>, SerializationError> {
        if self@ < 0x100_0000 {
            Ok(u24_bytes(self@))
        } else {
            Err(value_fault(EncodeFault::Uint24OutOfRange(self@)))
        }
    }

    /// Append the wire form to `data`.  On a range error `data` is unchanged.
    pub fn to_bytes(&self, data: &mut Vec<u8>) -> (r: Result<(), SerializationError>)
        ensures
            match self.wire() {
                Ok(bytes) => r.is_ok() && final(data)@ == old(data)@ + bytes,
                Err(e) => r == Err::<(), SerializationError>(e) && final(data)@ == old(data)@,
            },
    {
        if self.0 > 0xFF_FFFF {
            return Err(
                SerializationError {
                    place: Place::Value,
                    fault: EncodeFault::Uint24OutOfRange(self.0),
                },
            );
        }
        push_u24(data, self.0);
        Ok(())
    }

    /// The number of bytes of the wire form.
    pub fn ot_binary_size(&self) -> (n: usize)
        ensures
            n == 3,
            self.wire() matches Ok(bytes) ==> bytes.len() == n,
    {
        3
    }

    /// Read exactly three bytes, most significant first, zero-extended.
    pub fn from_bytes(c: &mut ReaderContext) -> (r: Result<Self, DeserializationError>)
        requires
            old(c).wf(),
        ensures
            r.is_ok() == old(c).has(3),
            match r {
                Ok(v) => v@ == u24_at(old(c).bytes(), old(c).position()) && final(c).moved_to(
                    old(c),
                    old(c).position() + 3,
                ),
                Err(e) => e == short_read() && final(c).moved_to(old(c), old(c).position()),
            },
    {
        match c.read_u24() {
            Some(v) => Ok(uint24(v)),
            None => Err(
                DeserializationError { place: Place::Value, fault: DecodeFault::ShortRead },
            ),
        }
    }
}

impl From<u32> for uint24 {
    fn from(val: u32) -> (r: Self) {
        uint24(val)
    }
}

impl FromSpecImpl<u32> for uint24 {
    open spec fn obeys_from_spec() -> bool {
        true
    }

    closed spec fn from_spec(val: u32) -> Self {
        uint24(val)
    }
}

impl From<uint24> for u32 {
    fn from(val: uint24) -> (r: Self) {
        val.0
    }
}

impl FromSpecImpl<uint24> for u32 {
    open spec fn obeys_from_spec() -> bool {
        true
    }

    closed spec fn from_spec(val: uint24) -> Self {
        val.0
    }
}

/// Converting an integer to a `uint24` and back gives the integer, and the
/// view of the `uint24` is that integer.
pub proof fn lemma_uint24_conversions(val: u32)
    ensures
        <uint24 as vstd::std_specs::convert::FromSpec<u32>>::from_spec(val)@ == val,
        <u32 as vstd::std_specs::convert::FromSpec<uint24>>::from_spec(
            <uint24 as vstd::std_specs::convert::FromSpec<u32>>::from_spec(val),
        ) == val,
{
}

/// A signed 16.16 fixed-point number, held in its packed form: the value
/// times 65536, rounded half up.
#[derive(Debug, PartialEq, Eq, Clone, Copy, Structural)]
pub struct Fixed {
    packed: i32,
}

impl View for Fixed {
    type V = i32;

    closed spec fn view(&self) -> i32 {
        self.packed
    }
}

impl Fixed {
    /// The wire form: the packed value as a signed 32-bit integer.
    pub open spec fn wire(&self) -> Seq<u8> {
        i32_bytes(self@)
    }

    /// The packed form.
    pub fn as_packed(&self) -> (packed: i32)
        ensures
            packed == self@,
    {
        self.packed
    }

    /// The number with the given packed form.
    pub fn from_packed(packed: i32) -> (r: Self)
        ensures
            r@ == packed,
    {
        Fixed { packed }
    }

    /// Append the wire form to `data`.  Packing never fails.
    pub fn to_bytes(&self, data: &mut Vec<u8>) -> (r: Result<(), SerializationError>)
        ensures
            r.is_ok(),
            final(data)@ == old(data)@ + self.wire(),
    {
        let packed: i32 = self.as_packed();
        push_i32(data, packed);
        Ok(())
    }

    /// The number of bytes of the wire form.
    pub fn ot_binary_size(&self) -> (n: usize)
        ensures
            n == 4,
            self.wire().len() == n,
    {
        4
    }

    /// Read a packed value of four bytes.
    pub fn from_bytes(c: &mut ReaderContext) -> (r: Result<Self, DeserializationError>)
        requires
            old(c).wf(),
        ensures
            r.is_ok() == old(c).has(4),
            match r {
                Ok(v) => v@ == i32_at(old(c).bytes(), old(c).position()) && final(c).moved_to(
                    old(c),
                    old(c).position() + 4,
                ),
                Err(e) => e == short_read() && final(c).moved_to(old(c), old(c).position()),
            },
    {
        match c.read_i32() {
            Some(packed) => Ok(Fixed::from_packed(packed)),
            None => Err(
                DeserializationError { place: Place::Value, fault: DecodeFault::ShortRead },
            ),
        }
    }
}

/// A signed 2.14 fixed-point number, held as its scaled value: the value
/// times 16384, rounded half up.
///
/// The scaled value of a number that can be packed is its packed form, so
/// equality, ordering and hashing go by the packed form: two numbers that
/// round to the same packed value are the same `F2DOT14`.  A scaled value
/// outside the signed 16-bit range can be held, and cannot be serialized.
#[derive(Debug, PartialEq, Eq, PartialOrd, Ord, Hash, Clone, Copy, Structural)]
pub struct F2DOT14 {
    scaled: i32,
}

impl View for F2DOT14 {
    type V = i32;

    closed spec fn view(&self) -> i32 {
        self.scaled
    }
}

impl F2DOT14 {
    /// Whether the scaled value fits the packed form.
    pub open spec fn packable(&self) -> bool {
        i16::MIN <= self@ <= i16::MAX
    }

    /// The wire form: the packed value as a signed 16-bit integer, or a range
    /// error for a scaled value that has no packed form.
    pub open spec fn wire(&self) -> Result<Seq<u8>, SerializationError> {
        if self.packable() {
            Ok(i16_bytes(self@ as i16))
        } else {
            Err(value_fault(EncodeFault::F2Dot14OutOfRange(self@)))
        }
    }

    /// The number with the given scaled value.
    pub fn from_scaled(scaled: i32) -> (r: Self)
        ensures
            r@ == scaled,
    {
        F2DOT14 { scaled }
    }

    /// The scaled value.
    pub fn scaled(&self) -> (scaled: i32)
        ensures
            scaled == self@,
    {
        self.scaled
    }

    /// The packed form, or an error where the scaled value does not fit in
    /// 16 signed bits.
    pub fn as_packed(&self) -> (r: Result<i16, std::num::TryFromIntError>)
        ensures
            r.is_ok() == self.packable(),
            r matches Ok(packed) ==> packed == self@,
    {
        i16::try_from(self.scaled)
    }

    /// The number with the given packed form.
    pub fn from_packed(packed: i16) -> (r: Self)
        ensures
            r@ == packed,
            r.packable(),
    {
        F2DOT14 { scaled: packed as i32 }
    }

    /// Append the wire form to `data`.  On a range error `data` is unchanged.
    pub fn to_bytes(&self, data: &mut Vec<u8>) -> (r: Result<(), SerializationError>)
        ensures
            match self.wire() {
                Ok(bytes) => r.is_ok() && final(data)@ == old(data)@ + bytes,
                Err(e) => r == Err::<(), SerializationError>(e) && final(data)@ == old(data)@,
            },
    {
        match self.as_packed() {
            Ok(packed) => {
                push_i16(data, packed);
                Ok(())
            },
            Err(_) => Err(
                SerializationError {
                    place: Place::Value,
                    fault: EncodeFault::F2Dot14OutOfRange(self.scaled),
                },
            ),
        }
    }

    /// The number of bytes of the wire form.
    pub fn ot_binary_size(&self) -> (n: usize)
        ensures
            n == 2,
            self.wire() matches Ok(bytes) ==> bytes.len() == n,
    {
        2
    }

    /// Read a packed value of two bytes.
    pub fn from_bytes(c: &mut ReaderContext) -> (r: Result<Self, DeserializationError>)
        requires
            old(c).wf(),
        ensures
            r.is_ok() == old(c).has(2),
            match r {
                Ok(v) => v@ == i16_at(old(c).bytes(), old(c).position()) && v.packable()
                    && final(c).moved_to(old(c), old(c).position() + 2),
                Err(e) => e == short_read() && final(c).moved_to(old(c), old(c).position()),
            },
    {
        match c.read_i16() {
            Some(packed) => Ok(F2DOT14::from_packed(packed)),
            None => Err(
                DeserializationError { place: Place::Value, fault: DecodeFault::ShortRead },
            ),
        }
    }
}

/// The packed form of a version: the major number in the high 16 bits, the
/// low nibble of the minor number in the four bits below them.
pub open spec fn version_packed(major: u16, minor: u8) -> u32 {
    ((major as u32) << 16) | (((minor & 0x0F) as u32) << 12)
}

/// The major number of a packed version.
pub open spec fn major_of(packed: u32) -> u16 {
    ((packed >> 16) & 0xFFFF) as u16
}

/// The minor number of a packed version.
pub open spec fn minor_of(packed: u32) -> u8 {
    ((packed >> 12) & 0x0f) as u8
}

/// A 16-bit major version number and a minor version number in the range `0..=9`.
#[derive(Debug, PartialEq, Eq, Clone, Copy, Structural)]
pub struct Version16Dot16(u32);

impl View for Version16Dot16 {
    type V = u32;

    closed spec fn view(&self) -> u32 {
        self.0
    }
}

impl Default for Version16Dot16 {
    fn default() -> (r: Self)
        ensures
            r@ == 0,
    {
        Version16Dot16(0)
    }
}

impl Version16Dot16 {
    /// The wire form: the packed value as an unsigned 32-bit integer.
    pub open spec fn wire(&self) -> Seq<u8> {
        u32_bytes(self@)
    }

    /// Construct a new version from a major and minor pair.
    ///
    /// Only the low nibble of the minor number is taken, that is the minor
    /// number modulo 16, and it must be in the range `0..=9`.
    pub fn from_major_minor(major: u16, minor: u8) -> (r: Self)
        requires
            minor % 16 <= 9,
        ensures
            r@ == version_packed(major, minor),
            r@ == major * 0x1_0000 + (minor % 16) * 0x1000,
            major_of(r@) == major,
            minor_of(r@) == minor % 16,
            minor <= 9 ==> minor_of(r@) == minor,
    {
        proof {
            lemma_version_parts(major, minor);
        }
        let major = (major as u32) << 16;
        // we only take the lower nibble
        let minor = (minor & 0x0F) as u32;
        Version16Dot16(major | minor << 12)
    }

    /// The version with the given packed form.
    pub fn from_packed(packed: u32) -> (r: Self)
        ensures
            r@ == packed,
    {
        Version16Dot16(packed)
    }

    /// The packed form.
    pub fn as_packed(&self) -> (packed: u32)
        ensures
            packed == self@,
    {
        self.0
    }

    /// The major version number.
    pub fn major(self) -> (m: u16)
        ensures
            m == major_of(self@),
    {
        ((self.0 >> 16) & 0xFFFF) as u16
    }

    /// The minor version number.
    pub fn minor(&self) -> (m: u8)
        ensures
            m == minor_of(self@),
    {
        ((self.0 >> 12) & 0x0f) as u8
    }

    /// Append the wire form to `data`.
    pub fn to_bytes(&self, data: &mut Vec<u8>) -> (r: Result<(), SerializationError>)
        ensures
            r.is_ok(),
            final(data)@ == old(data)@ + self.wire(),
    {
        push_u32(data, self.0);
        Ok(())
    }

    /// The number of bytes of the wire form.
    pub fn ot_binary_size(&self) -> (n: usize)
        ensures
            n == 4,
            self.wire().len() == n,
    {
        4
    }

    /// Read a packed version of four bytes.
    pub fn from_bytes(c: &mut ReaderContext) -> (r: Result<Self, DeserializationError>)
        requires
            old(c).wf(),
        ensures
            r.is_ok() == old(c).has(4),
            match r {
                Ok(v) => v@ == u32_at(old(c).bytes(), old(c).position()) && final(c).moved_to(
                    old(c),
                    old(c).position() + 4,
                ),
                Err(e) => e == short_read() && final(c).moved_to(old(c), old(c).position()),
            },
    {
        match c.read_u32() {
            Some(packed) => Ok(Version16Dot16(packed)),
            None => Err(
                DeserializationError { place: Place::Value, fault: DecodeFault::ShortRead },
            ),
        }
    }
}

/// A version gives back the major number it was made from, and the low
/// nibble of the minor number; a minor number in `0..=9` comes back whole.
pub proof fn lemma_version_parts(major: u16, minor: u8)
    ensures
        major_of(version_packed(major, minor)) == major,
        minor_of(version_packed(major, minor)) == minor % 16,
        minor <= 9 ==> minor_of(version_packed(major, minor)) == minor,
        version_packed(major, minor) == major * 0x1_0000 + (minor % 16) * 0x1000,
{
    let packed = version_packed(major, minor);
    assert((((((major as u32) << 16) | (((minor & 0x0F) as u32) << 12)) >> 16) & 0xFFFF) as u16
        == major) by (bit_vector);
    assert((((((major as u32) << 16) | (((minor & 0x0F) as u32) << 12)) >> 12) & 0x0f) as u8
        == minor % 16) by (bit_vector);
    assert((((major as u32) << 16) | (((minor & 0x0F) as u32) << 12)) == (major as u32) * 0x1_0000
        + ((minor % 16) as u32) * 0x1000) by (bit_vector);
}

/// The Unix timestamp of 1904-01-01T00:00:00 UTC, the zero point of the long date.
pub const EPOCH_UNIX_SECONDS: i64 = -2_082_844_800;

/// The Unix timestamp that the calendar library gives for a civil date and
/// time of day taken as UTC; `None` where it has no such date or time.
pub uninterp spec fn civil_seconds(
    year: int,
    month: int,
    day: int,
    hour: int,
    min: int,
    sec: int,
) -> Option<int>;

/// Calls `chrono::NaiveDate::from_ymd_opt`, `NaiveDate::and_hms_opt`,
/// `NaiveDateTime::and_utc` and `DateTime::timestamp`.
///
/// Believed without proof: the result is a function of the six numbers alone
/// (it is given the name `civil_seconds`), and for 1904-01-01T00:00:00 it is
/// 24107 days before the Unix epoch, that is `-2_082_844_800` seconds.
#[verifier::external_body]
fn civil_timestamp(year: i32, month: u32, day: u32, hour: u32, min: u32, sec: u32) -> (r: Option<
    i64,
>)
    ensures
        match r {
            Some(t) => civil_seconds(
                year as int,
                month as int,
                day as int,
                hour as int,
                min as int,
                sec as int,
            ) == Some(t as int),
            None => civil_seconds(
                year as int,
                month as int,
                day as int,
                hour as int,
                min as int,
                sec as int,
            ).is_none(),
        },
        (year == 1904 && month == 1 && day == 1 && hour == 0 && min == 0 && sec == 0) ==> r
            == Some(EPOCH_UNIX_SECONDS),
{
    let date = chrono::NaiveDate::from_ymd_opt(year, month, day)?;
    let at = date.and_hms_opt(hour, min, sec)?;
    Some(at.and_utc().timestamp())
}

/// A date and time, held as whole seconds since 1904-01-01T00:00:00 UTC.
#[derive(Debug, PartialEq, Eq, Clone, Copy, Structural)]
#[allow(clippy::upper_case_acronyms)]
pub struct LONGDATETIME {
    seconds: i64,
}

impl View for LONGDATETIME {
    type V = i64;

    closed spec fn view(&self) -> i64 {
        self.seconds
    }
}

impl LONGDATETIME {
    /// The wire form: the seconds since the 1904 epoch as a signed 64-bit integer.
    pub open spec fn wire(&self) -> Seq<u8> {
        i64_bytes(self@)
    }

    /// The Unix timestamp of the date, where it fits in 64 bits.
    pub open spec fn unix_seconds(&self) -> int {
        self@ + EPOCH_UNIX_SECONDS
    }

    /// The Unix timestamp of the zero point, as the calendar library gives it.
    pub fn epoch() -> (t: i64)
        ensures
            t == EPOCH_UNIX_SECONDS,
            civil_seconds(1904, 1, 1, 0, 0, 0) == Some(t as int),
    {
        civil_timestamp(1904, 1, 1, 0, 0, 0).unwrap()
    }

    /// The date that lies `seconds` after the 1904 epoch.
    pub fn from_seconds(seconds: i64) -> (r: Self)
        ensures
            r@ == seconds,
    {
        LONGDATETIME { seconds }
    }

    /// The seconds between the date and the 1904 epoch.
    pub fn seconds(&self) -> (s: i64)
        ensures
            s == self@,
    {
        self.seconds
    }

    /// The date with the given Unix timestamp; `None` where its distance
    /// from the 1904 epoch does not fit in 64 bits.
    pub fn from_timestamp(unix_seconds: i64) -> (r: Option<Self>)
        ensures
            r.is_some() == (unix_seconds - EPOCH_UNIX_SECONDS <= i64::MAX),
            r matches Some(date) ==> date@ == unix_seconds - EPOCH_UNIX_SECONDS
                && date.unix_seconds() == unix_seconds,
    {
        match unix_seconds.checked_sub(LONGDATETIME::epoch()) {
            Some(seconds) => Some(LONGDATETIME { seconds }),
            None => None,
        }
    }

    /// The Unix timestamp of the date; `None` where it does not fit in 64 bits.
    pub fn timestamp(&self) -> (r: Option<i64>)
        ensures
            r.is_some() == (self.unix_seconds() >= i64::MIN),
            r matches Some(t) ==> t == self.unix_seconds(),
    {
        self.seconds.checked_add(LONGDATETIME::epoch())
    }

    /// The date with the given civil date and time of day, taken as UTC;
    /// `None` where the calendar has no such date or time.
    pub fn from_ymd_hms(year: i32, month: u32, day: u32, hour: u32, min: u32, sec: u32) -> (r:
        Option<Self>)
        ensures
            match civil_seconds(
                year as int,
                month as int,
                day as int,
                hour as int,
                min as int,
                sec as int,
            ) {
                Some(t) => if t - EPOCH_UNIX_SECONDS <= i64::MAX {
                    r matches Some(date) && date@ == t - EPOCH_UNIX_SECONDS
                } else {
                    r.is_none()
                },
                None => r.is_none(),
            },
    {
        match civil_timestamp(year, month, day, hour, min, sec) {
            Some(t) => LONGDATETIME::from_timestamp(t),
            None => None,
        }
    }

    /// Append the wire form to `data`.
    pub fn to_bytes(&self, data: &mut Vec<u8>) -> (r: Result<(), SerializationError>)
        ensures
            r.is_ok(),
            final(data)@ == old(data)@ + self.wire(),
    {
        push_i64(data, self.seconds);
        Ok(())
    }

    /// The number of bytes of the wire form.
    pub fn ot_binary_size(&self) -> (n: usize)
        ensures
            n == 8,
            self.wire().len() == n,
    {
        8
    }

    /// Read a date of eight bytes.
    pub fn from_bytes(c: &mut ReaderContext) -> (r: Result<Self, DeserializationError>)
        requires
            old(c).wf(),
        ensures
            r.is_ok() == old(c).has(8),
            match r {
                Ok(v) => v@ == i64_at(old(c).bytes(), old(c).position()) && final(c).moved_to(
                    old(c),
                    old(c).position() + 8,
                ),
                Err(e) => e == short_read() && final(c).moved_to(old(c), old(c).position()),
            },
    {
        match c.read_i64() {
            Some(seconds) => Ok(LONGDATETIME { seconds }),
            None => Err(
                DeserializationError { place: Place::Value, fault: DecodeFault::ShortRead },
            ),
        }
    }
}

/// The 24-bit bound and round trip: a `uint24` has a wire form exactly when
/// it is below `2^24`, the form takes three bytes, and reading where it
/// stands gives the value back.
pub proof fn lemma_uint24_round_trip(value: uint24, s: Seq<u8>, pos: int)
    ensures
        value.wire() is Ok <==> value@ < 0x100_0000,
        value.wire() matches Ok(bytes) ==> bytes.len() == 3 && (stands_at(s, pos, bytes)
            ==> has_bytes(s, pos, 3) && u24_at(s, pos) == value@),
{
    if let Ok(bytes) = value.wire() {
        if stands_at(s, pos, bytes) {
            lemma_u24_round_trip(s, pos, value@);
        }
    }
}

/// Round trip of the packed forms: reading where the wire form of a
/// fixed-point number, a version or a date stands gives its packed value
/// back.
pub proof fn lemma_packed_round_trip(
    fixed: Fixed,
    f2dot14: F2DOT14,
    version: Version16Dot16,
    date: LONGDATETIME,
    s: Seq<u8>,
    pos: int,
)
    ensures
        stands_at(s, pos, fixed.wire()) ==> has_bytes(s, pos, 4) && i32_at(s, pos) == fixed@,
        f2dot14.wire() is Ok <==> f2dot14.packable(),
        f2dot14.wire() matches Ok(bytes) ==> bytes.len() == 2 && (stands_at(s, pos, bytes)
            ==> has_bytes(s, pos, 2) && i16_at(s, pos) == f2dot14@),
        stands_at(s, pos, version.wire()) ==> has_bytes(s, pos, 4) && u32_at(s, pos)
            == version@,
        stands_at(s, pos, date.wire()) ==> has_bytes(s, pos, 8) && i64_at(s, pos) == date@,
{
    if stands_at(s, pos, fixed.wire()) {
        lemma_u32_round_trip(s, pos, unsigned32(fixed@));
    }
    if let Ok(bytes) = f2dot14.wire() {
        if stands_at(s, pos, bytes) {
            lemma_u16_round_trip(s, pos, unsigned16(f2dot14@ as i16));
        }
    }
    if stands_at(s, pos, version.wire()) {
        lemma_u32_round_trip(s, pos, version@);
    }
    if stands_at(s, pos, date.wire()) {
        lemma_u64_round_trip(s, pos, unsigned64(date@));
    }
}

} // verus!
