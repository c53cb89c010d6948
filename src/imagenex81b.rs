//! Decoding Imagenex 881B rotary sonar files (.81B).
//!
//! Each shot is a big-endian record that starts with the magic `81B`, holds
//! a fixed 112-byte header, `(hi << 7) | lo` echo bytes, a termination byte
//! `0xFC`, and padding whose length depends on the head's `ix` byte.
use vstd::prelude::*;
use crate::bytes::{be_u16, copy_bytes, read_u16_be};
use crate::frame::{count_frames, frame_count, FrameDecoder};
use crate::model::{Channel, DecodeError, FrameStep, Ping, Quantity, Scaled, SonarDataRecord, Timestamp};

verus! {

/// The length of the fixed part of a shot, up to the echo data.
pub const SHOT_HEADER_LEN: usize = 112;

/// The termination byte that ends the data of a shot.
pub const TERMINATION_BYTE: u8 = 0xfc;

/// The Julian day number of 1970-01-01.
pub const UNIX_EPOCH_JULIAN_DAY: i64 = 2_440_588;

/// The Julian day number of a proleptic Gregorian date, or nothing when no
/// such date exists.
pub uninterp spec fn julian_day_of(year: int, month: int, day: int) -> Option<int>;

/// Relies on `time::Month::try_from`, `time::Date::from_calendar_date` and
/// `time::Date::to_julian_day`: the day number of a calendar date, or `None`
/// when the month is not 1 to 12 or the day does not exist in that month of
/// that year (or the year is outside -9999 to 9999).
#[verifier::external_body]
fn julian_day(year: i32, month: u8, day: u8) -> (r: Option<i32>)
    ensures
        r matches Some(j) ==> julian_day_of(year as int, month as int, day as int) == Some(j as int),
        r is None ==> julian_day_of(year as int, month as int, day as int) is None,
{
    let month = time::Month::try_from(month).ok()?;
    time::Date::from_calendar_date(year, month, day).ok().map(|d| d.to_julian_day())
}

/// An Imagenex 881B rotary sonar shot
pub struct Shot {
    pub n_to_read_index: u8,
    pub total_bytes: u16,
    pub n_to_read: u16,
    /// The date, as `DD-MMM-YYYY`
    pub dd: Vec<u8>,
    /// The time, as `HH:MM:SS`
    pub tt: Vec<u8>,
    /// Hundredths of seconds
    pub hh: Vec<u8>,
    pub sample_rate: u8,
    pub extended_bytes: u8,
    pub dir: u8,
    pub start_gain: u8,
    pub sector_size: u8,
    pub train_angle: u8,
    pub range_offset: u8,
    pub absorption: u8,
    pub profile_grid: u8,
    pub pulse_length: u8,
    pub profile: u8,
    pub velocity: u16,
    pub user_text: Vec<u8>,
    /// The frequency in kilohertz
    pub frequency: u16,
    pub azimuth_drive_head: u16,
    pub vertical_angle_offset: u16,
    pub ix: u8,
    pub head_id: u8,
    pub serial_status: u8,
    pub head_position: u16,
    pub range: u8,
    pub profile_range: u16,
    pub data_bytes_lo: u8,
    pub data_bytes_hi: u8,
    pub echo_data: Vec<u8>,
    pub termination_byte: u8,
}

/// The number of echo bytes given by the two data-length bytes.
pub open spec fn echo_len(lo: u8, hi: u8) -> int {
    (((hi as u16) << 7u16) | (lo as u16)) as int
}

/// The padding after the termination byte.
pub open spec fn trailer_len(ix: u8) -> int {
    if ix == 0x4d {
        19
    } else {
        63
    }
}

/// The whole length of the shot at `p`, whose header is there.
pub open spec fn shot_len(b: Seq<u8>, p: int) -> int {
    SHOT_HEADER_LEN + echo_len(b[p + 110], b[p + 111]) + 1 + trailer_len(b[p + 101])
}

pub open spec fn shot_magic_at(b: Seq<u8>, p: int) -> bool {
    b[p] == 0x38 && b[p + 1] == 0x31 && b[p + 2] == 0x42
}

/// Framing of the shot at `p`: a clean end exactly at the end of the
/// stream, the `81B`, `I` and `X` marks, the echo data and the termination
/// byte, and the position right after the padding.
pub open spec fn shot_step(b: Seq<u8>, p: int) -> FrameStep {
    let n = b.len() - p;
    if n == 0 {
        FrameStep::End
    } else if n < 3 {
        FrameStep::Fail(DecodeError::Truncated { position: p as usize })
    } else if !shot_magic_at(b, p) {
        FrameStep::Fail(DecodeError::BadMagic { position: p as usize })
    } else if n < SHOT_HEADER_LEN {
        FrameStep::Fail(DecodeError::Truncated { position: p as usize })
    } else if b[p + 100] != 0x49 || b[p + 102] != 0x58 {
        FrameStep::Fail(DecodeError::BadMagic { position: p as usize })
    } else if n < shot_len(b, p) {
        FrameStep::Fail(DecodeError::Truncated { position: p as usize })
    } else if b[p + SHOT_HEADER_LEN + echo_len(b[p + 110], b[p + 111])] != TERMINATION_BYTE {
        FrameStep::Fail(DecodeError::BadTerminator { position: p as usize })
    } else {
        FrameStep::Next(p + shot_len(b, p))
    }
}

/// A null-terminated string in a field of fixed width: the bytes before the
/// first zero, or the whole field.
pub open spec fn is_field_string(r: Seq<u8>, field: Seq<u8>) -> bool {
    &&& r.len() <= field.len()
    &&& r == field.subrange(0, r.len() as int)
    &&& forall|k: int| 0 <= k < r.len() ==> r[k] != 0
    &&& r.len() < field.len() ==> field[r.len() as int] == 0
}

fn field_string(b: &[u8], start: usize, width: usize) -> (r: Vec<u8>)
    requires
        start + width <= b.len(),
    ensures
        is_field_string(r@, b@.subrange(start as int, start + width)),
{
    let mut n: usize = 0;
    while n < width && b[start + n] != 0
        invariant
            n <= width,
            start + width <= b.len(),
            forall|k: int| 0 <= k < n ==> #[trigger] b@[start + k] != 0,
        decreases width - n,
    {
        n += 1;
    }
    let r = copy_bytes(b, start, n);
    proof {
        let field = b@.subrange(start as int, start + width);
        assert(r@ =~= field.subrange(0, n as int));
        assert forall|k: int| 0 <= k < r@.len() implies r@[k] != 0 by {
            assert(r@[k] == b@[start + k]);
        }
        if n < width {
            assert(field[n as int] == b@[start + n]);
        }
    }
    r
}

/// Whether a shot holds the fields that the bytes at `p` give.
pub open spec fn shot_spec(s: Shot, b: Seq<u8>, p: int) -> bool {
    let count = echo_len(b[p + 110], b[p + 111]);
    &&& s.n_to_read_index == b[p + 3]
    &&& s.total_bytes == be_u16(b, p + 4)
    &&& s.n_to_read == be_u16(b, p + 6)
    &&& is_field_string(s.dd@, b.subrange(p + 8, p + 20))
    &&& is_field_string(s.tt@, b.subrange(p + 20, p + 29))
    &&& is_field_string(s.hh@, b.subrange(p + 29, p + 33))
    &&& s.sample_rate == b[p + 33]
    &&& s.extended_bytes == b[p + 34]
    &&& s.dir == b[p + 37]
    &&& s.start_gain == b[p + 38]
    &&& s.sector_size == b[p + 39]
    &&& s.train_angle == b[p + 40]
    &&& s.range_offset == b[p + 41]
    &&& s.absorption == b[p + 42]
    &&& s.profile_grid == b[p + 43]
    &&& s.pulse_length == b[p + 44]
    &&& s.profile == b[p + 45]
    &&& s.velocity == be_u16(b, p + 46)
    &&& is_field_string(s.user_text@, b.subrange(p + 48, p + 80))
    &&& s.frequency == be_u16(b, p + 80)
    &&& s.azimuth_drive_head == be_u16(b, p + 82)
    &&& s.vertical_angle_offset == be_u16(b, p + 91)
    &&& s.ix == b[p + 101]
    &&& s.head_id == b[p + 103]
    &&& s.serial_status == b[p + 104]
    &&& s.head_position == be_u16(b, p + 105)
    &&& s.range == b[p + 107]
    &&& s.profile_range == be_u16(b, p + 108)
    &&& s.data_bytes_lo == b[p + 110]
    &&& s.data_bytes_hi == b[p + 111]
    &&& s.echo_data@ == b.subrange(p + SHOT_HEADER_LEN, p + SHOT_HEADER_LEN + count)
    &&& s.termination_byte == TERMINATION_BYTE
}

/// Decode the shot that starts at `pos`.
///
/// Returns `Ok(None)` when `pos` is the end of the stream, the shot and the
/// position right after it when one is there, and the error otherwise.
pub fn decode_shot(b: &[u8], pos: usize) -> (r: Result<Option<(Shot, usize)>, DecodeError>)
    requires
        pos <= b.len(),
    ensures
        pos == b.len() ==> r matches Ok(None),
        match shot_step(b@, pos as int) {
            FrameStep::End => r matches Ok(None),
            FrameStep::Fail(e) => match r {
                Err(e2) => e2 == e,
                _ => false,
            },
            FrameStep::Next(n) => match r {
                Ok(Some((s, next))) => next == n && shot_spec(s, b@, pos as int),
                _ => false,
            },
        },
{
    let n = b.len() - pos;
    if n == 0 {
        return Ok(None);
    }
    if n < 3 {
        return Err(DecodeError::Truncated { position: pos });
    }
    if !(b[pos] == 0x38 && b[pos + 1] == 0x31 && b[pos + 2] == 0x42) {
        return Err(DecodeError::BadMagic { position: pos });
    }
    if n < SHOT_HEADER_LEN {
        return Err(DecodeError::Truncated { position: pos });
    }
    if b[pos + 100] != 0x49 || b[pos + 102] != 0x58 {
        return Err(DecodeError::BadMagic { position: pos });
    }
    let lo = b[pos + 110];
    let hi = b[pos + 111];
    let count = (((hi as u16) << 7u16) | (lo as u16)) as usize;
    let ix = b[pos + 101];
    let trailer: usize = if ix == 0x4d {
        19
    } else {
        63
    };
    assert((((hi as u16) << 7u16) | (lo as u16)) <= 0x7fff) by (bit_vector);
    let total = SHOT_HEADER_LEN + count + 1 + trailer;
    if n < total {
        return Err(DecodeError::Truncated { position: pos });
    }
    let end = pos + SHOT_HEADER_LEN + count;
    if b[end] != TERMINATION_BYTE {
        return Err(DecodeError::BadTerminator { position: pos });
    }
    let shot = Shot {
        n_to_read_index: b[pos + 3],
        total_bytes: read_u16_be(b, pos + 4),
        n_to_read: read_u16_be(b, pos + 6),
        dd: field_string(b, pos + 8, 12),
        tt: field_string(b, pos + 20, 9),
        hh: field_string(b, pos + 29, 4),
        sample_rate: b[pos + 33],
        extended_bytes: b[pos + 34],
        dir: b[pos + 37],
        start_gain: b[pos + 38],
        sector_size: b[pos + 39],
        train_angle: b[pos + 40],
        range_offset: b[pos + 41],
        absorption: b[pos + 42],
        profile_grid: b[pos + 43],
        pulse_length: b[pos + 44],
        profile: b[pos + 45],
        velocity: read_u16_be(b, pos + 46),
        user_text: field_string(b, pos + 48, 32),
        frequency: read_u16_be(b, pos + 80),
        azimuth_drive_head: read_u16_be(b, pos + 82),
        vertical_angle_offset: read_u16_be(b, pos + 91),
        ix,
        head_id: b[pos + 103],
        serial_status: b[pos + 104],
        head_position: read_u16_be(b, pos + 105),
        range: b[pos + 107],
        profile_range: read_u16_be(b, pos + 108),
        data_bytes_lo: lo,
        data_bytes_hi: hi,
        echo_data: copy_bytes(b, pos + SHOT_HEADER_LEN, count),
        termination_byte: b[end],
    };
    Ok(Some((shot, pos + total)))
}


/// A calendar date and time of day, as plain numbers.
#[derive(Debug, Clone, Copy, PartialEq, Eq, Structural)]
pub struct CivilDateTime {
    pub year: i32,
    pub month: u8,
    pub day: u8,
    pub hour: u8,
    pub minute: u8,
    pub second: u8,
}

pub open spec fn is_digit(c: u8) -> bool {
    0x30 <= c <= 0x39
}

pub open spec fn digits2(s: Seq<u8>, i: int) -> int {
    (s[i] - 0x30) * 10 + (s[i + 1] - 0x30)
}

pub open spec fn digits4(s: Seq<u8>, i: int) -> int {
    digits2(s, i) * 100 + digits2(s, i + 2)
}

/// An ASCII letter in lower case; other bytes unchanged.
pub open spec fn lower(c: u8) -> int {
    if 0x41 <= c <= 0x5a {
        c + 0x20
    } else {
        c as int
    }
}

/// The number of a month from its three-letter English abbreviation in
/// lower case, or 0.
pub open spec fn month_number(a: int, b: int, c: int) -> int {
    if a == 0x6a && b == 0x61 && c == 0x6e {
        1
    } else if a == 0x66 && b == 0x65 && c == 0x62 {
        2
    } else if a == 0x6d && b == 0x61 && c == 0x72 {
        3
    } else if a == 0x61 && b == 0x70 && c == 0x72 {
        4
    } else if a == 0x6d && b == 0x61 && c == 0x79 {
        5
    } else if a == 0x6a && b == 0x75 && c == 0x6e {
        6
    } else if a == 0x6a && b == 0x75 && c == 0x6c {
        7
    } else if a == 0x61 && b == 0x75 && c == 0x67 {
        8
    } else if a == 0x73 && b == 0x65 && c == 0x70 {
        9
    } else if a == 0x6f && b == 0x63 && c == 0x74 {
        10
    } else if a == 0x6e && b == 0x6f && c == 0x76 {
        11
    } else if a == 0x64 && b == 0x65 && c == 0x63 {
        12
    } else {
        0
    }
}

/// The date and time that a shot's text gives, in the form
/// `DD-MMM-YYYYHH:MM:SS`: two-digit day, three-letter month in any case,
/// a year of four digits with an optional sign, and a 24-hour time. The
/// text must end there.
pub open spec fn datetime_spec(s: Seq<u8>) -> Option<CivilDateTime> {
    let o: int = if s.len() > 7 && (s[7] == 0x2b || s[7] == 0x2d) {
        1
    } else {
        0
    };
    if s.len() != 19 + o {
        None
    } else if !(is_digit(s[0]) && is_digit(s[1]) && s[2] == 0x2d && s[6] == 0x2d && is_digit(
        s[7 + o],
    ) && is_digit(s[8 + o]) && is_digit(s[9 + o]) && is_digit(s[10 + o]) && is_digit(s[11 + o])
        && is_digit(s[12 + o]) && s[13 + o] == 0x3a && is_digit(s[14 + o]) && is_digit(s[15 + o])
        && s[16 + o] == 0x3a && is_digit(s[17 + o]) && is_digit(s[18 + o])) {
        None
    } else {
        let month = month_number(lower(s[3]), lower(s[4]), lower(s[5]));
        let year = if s[7] == 0x2d {
            -digits4(s, 8)
        } else {
            digits4(s, 7 + o)
        };
        if month == 0 || digits2(s, 11 + o) > 23 || digits2(s, 14 + o) > 59 || digits2(s, 17 + o)
            > 59 {
            None
        } else {
            Some(
                CivilDateTime {
                    year: year as i32,
                    month: month as u8,
                    day: digits2(s, 0) as u8,
                    hour: digits2(s, 11 + o) as u8,
                    minute: digits2(s, 14 + o) as u8,
                    second: digits2(s, 17 + o) as u8,
                },
            )
        }
    }
}

fn digit_value(c: u8) -> (r: u8)
    requires
        is_digit(c),
    ensures
        r == c - 0x30,
{
    c - 0x30
}

fn read_digits2(s: &Vec<u8>, i: usize) -> (r: u8)
    requires
        i + 2 <= s.len(),
        is_digit(s@[i as int]),
        is_digit(s@[i + 1]),
    ensures
        r == digits2(s@, i as int),
{
    digit_value(s[i]) * 10 + digit_value(s[i + 1])
}

fn lower_byte(c: u8) -> (r: u8)
    ensures
        r == lower(c),
{
    if 0x41 <= c && c <= 0x5a {
        c + 0x20
    } else {
        c
    }
}

fn month_of(a: u8, b: u8, c: u8) -> (r: u8)
    ensures
        r == month_number(a as int, b as int, c as int),
{
    if a == 0x6a && b == 0x61 && c == 0x6e {
        1
    } else if a == 0x66 && b == 0x65 && c == 0x62 {
        2
    } else if a == 0x6d && b == 0x61 && c == 0x72 {
        3
    } else if a == 0x61 && b == 0x70 && c == 0x72 {
        4
    } else if a == 0x6d && b == 0x61 && c == 0x79 {
        5
    } else if a == 0x6a && b == 0x75 && c == 0x6e {
        6
    } else if a == 0x6a && b == 0x75 && c == 0x6c {
        7
    } else if a == 0x61 && b == 0x75 && c == 0x67 {
        8
    } else if a == 0x73 && b == 0x65 && c == 0x70 {
        9
    } else if a == 0x6f && b == 0x63 && c == 0x74 {
        10
    } else if a == 0x6e && b == 0x6f && c == 0x76 {
        11
    } else if a == 0x64 && b == 0x65 && c == 0x63 {
        12
    } else {
        0
    }
}

/// Parse a date and time of the form `DD-MMM-YYYYHH:MM:SS`.
pub fn parse_datetime(s: &Vec<u8>) -> (r: Option<CivilDateTime>)
    ensures
        r == datetime_spec(s@),
{
    let o: usize = if s.len() > 7 && (s[7] == 0x2b || s[7] == 0x2d) {
        1
    } else {
        0
    };
    if s.len() != 19 + o {
        return None;
    }
    if !(0x30 <= s[0] && s[0] <= 0x39 && 0x30 <= s[1] && s[1] <= 0x39 && s[2] == 0x2d && s[6]
        == 0x2d) {
        return None;
    }
    let mut k: usize = 7 + o;
    while k < 19 + o
        invariant
            o <= 1,
            7 + o <= k <= 19 + o,
            s@.len() == 19 + o,
            forall|j: int|
                7 + o <= j < k ==> (if j == 13 + o || j == 16 + o {
                    #[trigger] s@[j] == 0x3a
                } else {
                    is_digit(s@[j])
                }),
        decreases 19 + o - k,
    {
        let ok = if k == 13 + o || k == 16 + o {
            s[k] == 0x3a
        } else {
            0x30 <= s[k] && s[k] <= 0x39
        };
        if !ok {
            proof {
                assert(datetime_spec(s@) is None) by {
                    assert(!(if k == 13 + o || k == 16 + o {
                        s@[k as int] == 0x3a
                    } else {
                        is_digit(s@[k as int])
                    }));
                }
            }
            return None;
        }
        k += 1;
    }
    proof {
        assert(s@[13 + o] == 0x3a);
        assert(s@[16 + o] == 0x3a);
        assert(is_digit(s@[7 + o]) && is_digit(s@[8 + o]) && is_digit(s@[9 + o]) && is_digit(s@[10 + o]));
        assert(is_digit(s@[11 + o]) && is_digit(s@[12 + o]) && is_digit(s@[14 + o]) && is_digit(s@[15 + o]));
        assert(is_digit(s@[17 + o]) && is_digit(s@[18 + o]));
    }
    let month = month_of(lower_byte(s[3]), lower_byte(s[4]), lower_byte(s[5]));
    let hour = read_digits2(s, 11 + o);
    let minute = read_digits2(s, 14 + o);
    let second = read_digits2(s, 17 + o);
    if month == 0 || hour > 23 || minute > 59 || second > 59 {
        return None;
    }
    let magnitude = read_digits2(s, 7 + o) as i32 * 100 + read_digits2(s, 9 + o) as i32;
    let year = if s[7] == 0x2d {
        -magnitude
    } else {
        magnitude
    };
    Some(
        CivilDateTime {
            year,
            month,
            day: read_digits2(s, 0),
            hour,
            minute,
            second,
        },
    )
}

/// The instant of a time of day on the day with Julian day number
/// `julian_day`, in UTC.
pub open spec fn instant_spec(julian_day: int, hour: int, minute: int, second: int) -> Timestamp {
    Timestamp {
        unix_millis: (((julian_day - UNIX_EPOCH_JULIAN_DAY) * 86400 + hour * 3600 + minute * 60
            + second) * 1000) as i64,
    }
}

/// The instant of a time of day on the day with Julian day number
/// `julian_day`, in UTC.
pub fn instant(julian_day: i32, hour: u8, minute: u8, second: u8) -> (r: Timestamp)
    ensures
        r == instant_spec(julian_day as int, hour as int, minute as int, second as int),
{
    let days = julian_day as i64 - UNIX_EPOCH_JULIAN_DAY;
    let seconds = days * 86400 + hour as i64 * 3600 + minute as i64 * 60 + second as i64;
    Timestamp { unix_millis: seconds * 1000 }
}

/// The instant that a shot's text gives, if it is a valid date and time.
pub open spec fn shot_time_spec(text: Seq<u8>) -> Option<Timestamp> {
    match datetime_spec(text) {
        Some(dt) => match julian_day_of(dt.year as int, dt.month as int, dt.day as int) {
            Some(j) => Some(instant_spec(j, dt.hour as int, dt.minute as int, dt.second as int)),
            None => None,
        },
        None => None,
    }
}

impl Shot {
    /// The date, time and hundredths fields, one after the other.
    pub open spec fn time_text(&self) -> Seq<u8> {
        self.dd@ + self.tt@ + self.hh@
    }

    /// The acquisition time of the shot, when its date and time fields hold
    /// a valid date and time.
    pub fn timestamp(&self) -> (r: Option<Timestamp>)
        ensures
            r == shot_time_spec(self.time_text()),
    {
        let mut text: Vec<u8> = Vec::new();
        let mut i: usize = 0;
        while i < self.dd.len()
            invariant
                i <= self.dd@.len(),
                text@ == self.dd@.subrange(0, i as int),
            decreases self.dd@.len() - i,
        {
            text.push(self.dd[i]);
            i += 1;
            assert(text@ =~= self.dd@.subrange(0, i as int));
        }
        let mut i: usize = 0;
        while i < self.tt.len()
            invariant
                i <= self.tt@.len(),
                text@ == self.dd@ + self.tt@.subrange(0, i as int),
            decreases self.tt@.len() - i,
        {
            text.push(self.tt[i]);
            i += 1;
            assert(text@ =~= self.dd@ + self.tt@.subrange(0, i as int));
        }
        let mut i: usize = 0;
        while i < self.hh.len()
            invariant
                i <= self.hh@.len(),
                text@ == self.dd@ + self.tt@ + self.hh@.subrange(0, i as int),
            decreases self.hh@.len() - i,
        {
            text.push(self.hh[i]);
            i += 1;
            assert(text@ =~= self.dd@ + self.tt@ + self.hh@.subrange(0, i as int));
        }
        assert(text@ =~= self.time_text());
        match parse_datetime(&text) {
            Some(dt) => match julian_day(dt.year, dt.month, dt.day) {
                Some(j) => Some(instant(j, dt.hour, dt.minute, dt.second)),
                None => None,
            },
            None => None,
        }
    }

    /// The frequency in hertz; the shot holds kilohertz
    pub fn frequency(&self) -> (r: Quantity)
        ensures
            r == Quantity::Fixed(Scaled { raw: self.frequency as i64, numerator: 1000, denominator: 1 }),
    {
        Quantity::Fixed(Scaled { raw: self.frequency as i64, numerator: 1000, denominator: 1 })
    }

    /// The sampling interval, which the format does not record
    pub fn sampling_interval(&self) -> (r: Scaled)
        ensures
            r == (Scaled { raw: 0, numerator: 1, denominator: 1 }),
    {
        Scaled { raw: 0, numerator: 1, denominator: 1 }
    }

    /// Convert the shot to a ping on `Channel::Other`, when its time fields
    /// hold a valid date and time.
    pub fn into_record(self) -> (r: Option<SonarDataRecord<u8>>)
        ensures
            match shot_time_spec(self.time_text()) {
                None => r is None,
                Some(t) => match r {
                    Some(SonarDataRecord::Ping(p)) => p.timestamp == t && p.source@ == "unknown"@
                        && p.channel == Channel::Other && p.frequency == Quantity::Fixed(
                        Scaled { raw: self.frequency as i64, numerator: 1000, denominator: 1 },
                    ) && p.sampling_interval == (Scaled { raw: 0, numerator: 1, denominator: 1 })
                        && p.data@ == self.echo_data@,
                    _ => false,
                },
            },
    {
        match self.timestamp() {
            Some(t) => {
                let frequency = self.frequency();
                let interval = self.sampling_interval();
                Some(
                    SonarDataRecord::Ping(
                        Ping::new(
                            "unknown".to_owned(),
                            t,
                            frequency,
                            interval,
                            Channel::Other,
                            self.echo_data,
                        ),
                    ),
                )
            },
            None => None,
        }
    }
}

/// The decoder of 81B shots
pub struct ShotDecoder;

impl FrameDecoder for ShotDecoder {
    type Frame = Shot;

    open spec fn step(b: Seq<u8>, p: int) -> FrameStep {
        shot_step(b, p)
    }

    fn decode(b: &[u8], pos: usize) -> (r: Result<Option<(Shot, usize)>, DecodeError>) {
        decode_shot(b, pos)
    }
}

/// Decode a whole 81B stream and count its shots.
pub fn count_shots(b: &[u8]) -> (r: Result<usize, DecodeError>)
    ensures
        match frame_count::<ShotDecoder>(b@, 0) {
            Ok(c) => r == Ok::<usize, DecodeError>(c as usize),
            Err(e) => r == Err::<usize, DecodeError>(e),
        },
{
    count_frames::<ShotDecoder>(b, 0)
}

/// An iterator interface to the shots of an 81B stream
pub struct File {
    reader: Vec<u8>,
    pos: usize,
}

impl File {
    pub closed spec fn bytes(&self) -> Seq<u8> {
        self.reader@
    }

    pub closed spec fn position(&self) -> int {
        self.pos as int
    }

    pub closed spec fn wf(&self) -> bool {
        self.pos <= self.reader@.len()
    }

    /// Create an 81B stream over the given bytes, positioned at the start
    pub fn new(reader: Vec<u8>) -> (r: File)
        ensures
            r.wf(),
            r.bytes() == reader@,
            r.position() == 0,
    {
        File { reader, pos: 0 }
    }

    /// The next shot: `None` at the end of the stream, the shot when one is
    /// there, and the error otherwise. After an error the stream is at its
    /// end, so iteration stops.
    pub fn next(&mut self) -> (r: Option<Result<Shot, DecodeError>>)
        requires
            old(self).wf(),
        ensures
            final(self).wf(),
            final(self).bytes() == old(self).bytes(),
            match shot_step(old(self).bytes(), old(self).position()) {
                FrameStep::End => r is None && final(self).position() == old(self).position(),
                FrameStep::Fail(e) => r == Some(Err::<Shot, DecodeError>(e)) && final(self).position()
                    == old(self).bytes().len(),
                FrameStep::Next(n) => match r {
                    Some(Ok(s)) => final(self).position() == n && shot_spec(
                        s,
                        old(self).bytes(),
                        old(self).position(),
                    ),
                    _ => false,
                },
            },
    {
        match decode_shot(self.reader.as_slice(), self.pos) {
            Ok(Some((s, next))) => {
                self.pos = next;
                Some(Ok(s))
            },
            Ok(None) => None,
            Err(e) => {
                self.pos = self.reader.len();
                Some(Err(e))
            },
        }
    }
}

} // verus!
