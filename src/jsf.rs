//! Decoding Edgetech JSF files, the primary format.
//!
//! A JSF file is a concatenation of messages. Each message is a 16-byte
//! header (magic `01 16`, protocol, session, little-endian type code,
//! command, subsystem, channel, sequence, two reserved bytes, and a
//! little-endian signed payload size) followed by exactly that many payload
//! bytes, whose shape depends on the type code.
use vstd::prelude::*;
use crate::bytes::{copy_bytes, le_i16, le_i32, le_u16, le_u32, read_i16_le, read_i32_le, read_u16_le, read_u16_seq, read_u32_le, u16_seq};
use crate::frame::FrameDecoder;
use crate::locker::{record_key, LockerKey};
use crate::model::{Channel, DecodeError, FrameStep, Orientation, Ping, Quantity, RecordKind, Scaled, SonarDataRecord, Timestamp};

verus! {

/// The length of a message header.
pub const HEADER_LEN: usize = 16;

/// The type code of sonar data messages.
pub const SONAR_DATA: u16 = 80;

/// The type code of pitch-roll data messages.
pub const PITCH_ROLL: u16 = 2020;

/// The type code of navigation offsets messages.
pub const NAVIGATION_OFFSETS: u16 = 181;

/// The type code of system information messages.
pub const SYSTEM_INFORMATION: u16 = 182;

/// The type code of NMEA string messages.
pub const NMEA_STRING: u16 = 2002;

/// The length of the fixed part of a sonar data message; the 16-bit trace
/// samples follow it.
pub const SONAR_FIXED_LEN: usize = 240;

/// The header of a JSF message
#[derive(Debug, Clone, Copy, PartialEq, Eq, Structural)]
pub struct MessageHeader {
    pub protocol: u8,
    pub session_id: u8,
    pub message_type: u16,
    pub command_type: u8,
    pub subsystem_number: u8,
    pub channel: u8,
    pub sequence_number: u8,
    pub message_size: i32,
}

/// The header stored at `p`.
pub open spec fn header_spec(b: Seq<u8>, p: int) -> MessageHeader {
    MessageHeader {
        protocol: b[p + 2],
        session_id: b[p + 3],
        message_type: le_u16(b, p + 4) as u16,
        command_type: b[p + 6],
        subsystem_number: b[p + 7],
        channel: b[p + 8],
        sequence_number: b[p + 9],
        message_size: le_i32(b, p + 12) as i32,
    }
}

/// Whether the two bytes at `p` are the message magic.
pub open spec fn magic_at(b: Seq<u8>, p: int) -> bool {
    b[p] == 0x01 && b[p + 1] == 0x16
}

/// The number of payload bytes that the shape of a type code fixes; the
/// declared size of a message must be at least this.
pub open spec fn fixed_len(message_type: int) -> int {
    if message_type == SONAR_DATA {
        240
    } else if message_type == PITCH_ROLL {
        44
    } else if message_type == NAVIGATION_OFFSETS {
        64
    } else if message_type == SYSTEM_INFORMATION {
        24
    } else if message_type == NMEA_STRING {
        12
    } else {
        0
    }
}

/// Framing of the message at `p`: clean end exactly at the end of the
/// stream, a bad magic number, a declared size that the type code's shape
/// cannot have, a message cut short by the end of the stream, or the
/// position right after the message.
pub open spec fn step_spec(b: Seq<u8>, p: int) -> FrameStep {
    let n = b.len() - p;
    if n == 0 {
        FrameStep::End
    } else if n < 2 {
        FrameStep::Fail(DecodeError::Truncated { position: p as usize })
    } else if !magic_at(b, p) {
        FrameStep::Fail(DecodeError::BadMagic { position: p as usize })
    } else if n < HEADER_LEN {
        FrameStep::Fail(DecodeError::Truncated { position: p as usize })
    } else if le_i32(b, p + 12) < fixed_len(le_u16(b, p + 4)) {
        FrameStep::Fail(DecodeError::BadSize { position: p as usize })
    } else if n - HEADER_LEN < le_i32(b, p + 12) {
        FrameStep::Fail(DecodeError::Truncated { position: p as usize })
    } else {
        FrameStep::Next(p + HEADER_LEN + le_i32(b, p + 12))
    }
}

/// A JSF message
pub struct Message {
    pub header: MessageHeader,
    pub data: MessageType,
}

/// The payload of a message, by type code.
pub enum MessageType {
    SonarData(SonarData),
    PitchRoll(PitchRollData),
    NavigationOffsets(NavigationOffsets),
    SystemInformation(SystemInformation),
    Nmea(NMEAString),
    Unknown(UnknownMessage),
}

/// An unknown message type
///
/// This simply wraps the byte data of the message. It represents both
/// private message types emitted by the system and unimplemented messages.
pub struct UnknownMessage {
    pub data: Vec<u8>,
}

/// The system information message
#[derive(Debug, Clone, Copy, PartialEq, Eq, Structural)]
pub struct SystemInformation {
    pub system_type: i32,
    pub low_rate_io: i32,
    pub version_number: i32,
    pub n_subsystems: i32,
    pub n_serial_ports: i32,
    pub serial_number: i32,
}

pub open spec fn system_information_spec(b: Seq<u8>, s: int) -> SystemInformation {
    SystemInformation {
        system_type: le_i32(b, s) as i32,
        low_rate_io: le_i32(b, s + 4) as i32,
        version_number: le_i32(b, s + 8) as i32,
        n_subsystems: le_i32(b, s + 12) as i32,
        n_serial_ports: le_i32(b, s + 16) as i32,
        serial_number: le_i32(b, s + 20) as i32,
    }
}

/// The navigation offsets message. Each offset is kept as the bits of the
/// single-precision number that the file holds.
#[derive(Debug, Clone, Copy, PartialEq, Eq, Structural)]
pub struct NavigationOffsets {
    pub x: u32,
    pub y: u32,
    pub latitude: u32,
    pub longitude: u32,
    pub aft: u32,
    pub starboard: u32,
    pub depth: u32,
    pub altitude: u32,
    pub heading: u32,
    pub pitch: u32,
    pub roll: u32,
    pub yaw: u32,
    pub tow_point_elevation: u32,
}

pub open spec fn navigation_offsets_spec(b: Seq<u8>, s: int) -> NavigationOffsets {
    NavigationOffsets {
        x: le_u32(b, s) as u32,
        y: le_u32(b, s + 4) as u32,
        latitude: le_u32(b, s + 8) as u32,
        longitude: le_u32(b, s + 12) as u32,
        aft: le_u32(b, s + 16) as u32,
        starboard: le_u32(b, s + 20) as u32,
        depth: le_u32(b, s + 24) as u32,
        altitude: le_u32(b, s + 28) as u32,
        heading: le_u32(b, s + 32) as u32,
        pitch: le_u32(b, s + 36) as u32,
        roll: le_u32(b, s + 40) as u32,
        yaw: le_u32(b, s + 44) as u32,
        tow_point_elevation: le_u32(b, s + 48) as u32,
    }
}

/// The NMEA string message
pub struct NMEAString {
    pub time: i32,
    pub milliseconds: i32,
    pub source: u8,
    pub data: Vec<u8>,
}

/// The pitch-roll data message
#[derive(Debug, Clone, Copy, PartialEq, Eq, Structural)]
pub struct PitchRollData {
    pub time: i32,
    pub milliseconds: i32,
    pub acceleration_x: i16,
    pub acceleration_y: i16,
    pub acceleration_z: i16,
    pub gyro_rate_x: i16,
    pub gyro_rate_y: i16,
    pub gyro_rate_z: i16,
    pub pitch: i16,
    pub roll: i16,
    pub temperature: i16,
    pub device_info: u16,
    pub heave: i16,
    pub heading: u16,
    pub validity_flag: i32,
    pub yaw: i16,
}

pub open spec fn pitch_roll_spec(b: Seq<u8>, s: int) -> PitchRollData {
    PitchRollData {
        time: le_i32(b, s) as i32,
        milliseconds: le_i32(b, s + 4) as i32,
        acceleration_x: le_i16(b, s + 12) as i16,
        acceleration_y: le_i16(b, s + 14) as i16,
        acceleration_z: le_i16(b, s + 16) as i16,
        gyro_rate_x: le_i16(b, s + 18) as i16,
        gyro_rate_y: le_i16(b, s + 20) as i16,
        gyro_rate_z: le_i16(b, s + 22) as i16,
        pitch: le_i16(b, s + 24) as i16,
        roll: le_i16(b, s + 26) as i16,
        temperature: le_i16(b, s + 28) as i16,
        device_info: le_u16(b, s + 30) as u16,
        heave: le_i16(b, s + 32) as i16,
        heading: le_u16(b, s + 34) as u16,
        validity_flag: le_i32(b, s + 36) as i32,
        yaw: le_i16(b, s + 40) as i16,
    }
}

/// The sonar data message: the fixed 240-byte part, whose fields are read
/// on demand, and the trace of 16-bit samples that follows it.
pub struct SonarData {
    pub fixed: Vec<u8>,
    pub trace: Vec<u16>,
}


/// The timestamp of a sonar data message whose fixed part starts at `s`:
/// whole seconds since the epoch plus the milliseconds within the second,
/// taken modulo 1000 from the milliseconds since the start of the day.
pub open spec fn sonar_timestamp(b: Seq<u8>, s: int) -> Timestamp {
    Timestamp { unix_millis: (le_i32(b, s) * 1000 + le_u32(b, s + 200) % 1000) as i64 }
}

impl SonarData {
    pub open spec fn wf(&self) -> bool {
        self.fixed@.len() == SONAR_FIXED_LEN
    }

    pub open spec fn timestamp_spec(&self) -> Timestamp {
        sonar_timestamp(self.fixed@, 0)
    }

    /// Whole seconds since the epoch
    pub fn time(&self) -> (r: i32)
        requires
            self.wf(),
        ensures
            r == le_i32(self.fixed@, 0),
    {
        read_i32_le(self.fixed.as_slice(), 0)
    }

    /// The ping number
    pub fn ping_number(&self) -> (r: u32)
        requires
            self.wf(),
        ensures
            r == le_u32(self.fixed@, 8),
    {
        read_u32_le(self.fixed.as_slice(), 8)
    }

    /// Milliseconds since the start of the day
    pub fn milliseconds_today(&self) -> (r: u32)
        requires
            self.wf(),
        ensures
            r == le_u32(self.fixed@, 200),
    {
        read_u32_le(self.fixed.as_slice(), 200)
    }

    /// Return the timestamp
    pub fn timestamp(&self) -> (r: Timestamp)
        requires
            self.wf(),
        ensures
            r == self.timestamp_spec(),
    {
        let seconds = self.time();
        let millis = self.milliseconds_today() % 1000;
        Timestamp::from_parts(seconds as i64, millis as i64)
    }

    /// Return the mixer frequency in hertz
    pub fn mixer_frequency(&self) -> (r: Quantity)
        requires
            self.wf(),
        ensures
            r == Quantity::Float32Bits(le_u32(self.fixed@, 152) as u32),
    {
        Quantity::Float32Bits(read_u32_le(self.fixed.as_slice(), 152))
    }

    /// Return the sampling interval in seconds; the file holds nanoseconds
    pub fn sampling_interval(&self) -> (r: Scaled)
        requires
            self.wf(),
        ensures
            r == (Scaled {
                raw: le_u32(self.fixed@, 116) as i64,
                numerator: 1,
                denominator: 1_000_000_000,
            }),
    {
        let raw = read_u32_le(self.fixed.as_slice(), 116);
        Scaled { raw: raw as i64, numerator: 1, denominator: 1_000_000_000 }
    }

    /// Return the sonar data trace
    pub fn trace(&self) -> (r: &Vec<u16>)
        ensures
            r@ == self.trace@,
    {
        &self.trace
    }
}

/// The remainder of `x` divided by 1000, with the sign of `x`, as Rust's `%`
/// computes it.
pub open spec fn rem_1000(x: int) -> int {
    if x >= 0 {
        x % 1000
    } else {
        -((-x) % 1000)
    }
}

/// Whether bit `bit` of a validity bitmask is set.
pub open spec fn flag_bit(flag: i32, bit: u32) -> bool {
    (flag >> bit) & 1i32 == 1i32
}

fn flag_set(flag: i32, bit: u32) -> (r: bool)
    requires
        bit < 32,
    ensures
        r == flag_bit(flag, bit),
{
    (flag >> bit) & 1i32 == 1i32
}

/// A valid raw field rescaled by `numerator / denominator`, or nothing.
pub open spec fn rescaled(valid: bool, raw: int, numerator: int, denominator: int) -> Option<Scaled> {
    if valid {
        Some(Scaled { raw: raw as i64, numerator: numerator as i64, denominator: denominator as i64 })
    } else {
        None
    }
}

impl PitchRollData {
    pub open spec fn timestamp_spec(&self) -> Timestamp {
        Timestamp { unix_millis: (self.time * 1000 + rem_1000(self.milliseconds as int)) as i64 }
    }

    pub open spec fn valid(&self, bit: u32) -> bool {
        flag_bit(self.validity_flag, bit)
    }

    pub open spec fn pitch_spec(&self) -> Option<Scaled> {
        rescaled(self.valid(6), self.pitch as int, 180, 32768)
    }

    pub open spec fn roll_spec(&self) -> Option<Scaled> {
        rescaled(self.valid(7), self.roll as int, 180, 32768)
    }

    pub open spec fn heading_spec(&self) -> Option<Scaled> {
        rescaled(self.valid(9), self.heading as int, 1, 100)
    }

    /// Return the timestamp
    pub fn timestamp(&self) -> (r: Timestamp)
        ensures
            r == self.timestamp_spec(),
    {
        let m = self.milliseconds as i64;
        let millis = if m >= 0 {
            m % 1000
        } else {
            -((-m) % 1000)
        };
        Timestamp::from_parts(self.time as i64, millis)
    }

    pub fn is_acceleration_x_valid(&self) -> (r: bool)
        ensures
            r == self.valid(0),
    {
        flag_set(self.validity_flag, 0)
    }

    pub fn is_acceleration_y_valid(&self) -> (r: bool)
        ensures
            r == self.valid(1),
    {
        flag_set(self.validity_flag, 1)
    }

    pub fn is_acceleration_z_valid(&self) -> (r: bool)
        ensures
            r == self.valid(2),
    {
        flag_set(self.validity_flag, 2)
    }

    pub fn is_gyro_rate_x_valid(&self) -> (r: bool)
        ensures
            r == self.valid(3),
    {
        flag_set(self.validity_flag, 3)
    }

    pub fn is_gyro_rate_y_valid(&self) -> (r: bool)
        ensures
            r == self.valid(4),
    {
        flag_set(self.validity_flag, 4)
    }

    pub fn is_gyro_rate_z_valid(&self) -> (r: bool)
        ensures
            r == self.valid(5),
    {
        flag_set(self.validity_flag, 5)
    }

    pub fn is_pitch_valid(&self) -> (r: bool)
        ensures
            r == self.valid(6),
    {
        flag_set(self.validity_flag, 6)
    }

    pub fn is_roll_valid(&self) -> (r: bool)
        ensures
            r == self.valid(7),
    {
        flag_set(self.validity_flag, 7)
    }

    pub fn is_heave_valid(&self) -> (r: bool)
        ensures
            r == self.valid(8),
    {
        flag_set(self.validity_flag, 8)
    }

    pub fn is_heading_valid(&self) -> (r: bool)
        ensures
            r == self.valid(9),
    {
        flag_set(self.validity_flag, 9)
    }

    pub fn is_temperature_valid(&self) -> (r: bool)
        ensures
            r == self.valid(10),
    {
        flag_set(self.validity_flag, 10)
    }

    pub fn is_device_info_valid(&self) -> (r: bool)
        ensures
            r == self.valid(11),
    {
        flag_set(self.validity_flag, 11)
    }

    pub fn is_yaw_valid(&self) -> (r: bool)
        ensures
            r == self.valid(12),
    {
        flag_set(self.validity_flag, 12)
    }

    /// The acceleration along (x, y, z), in units of 30/32768, when all
    /// three are valid
    pub fn acceleration(&self) -> (r: Option<(Scaled, Scaled, Scaled)>)
        ensures
            r == (if self.valid(0) && self.valid(1) && self.valid(2) {
                Some(
                    (
                        Scaled { raw: self.acceleration_x as i64, numerator: 30, denominator: 32768 },
                        Scaled { raw: self.acceleration_y as i64, numerator: 30, denominator: 32768 },
                        Scaled { raw: self.acceleration_z as i64, numerator: 30, denominator: 32768 },
                    ),
                )
            } else {
                None
            }),
    {
        if self.is_acceleration_x_valid() && self.is_acceleration_y_valid()
            && self.is_acceleration_z_valid() {
            Some(
                (
                    Scaled { raw: self.acceleration_x as i64, numerator: 30, denominator: 32768 },
                    Scaled { raw: self.acceleration_y as i64, numerator: 30, denominator: 32768 },
                    Scaled { raw: self.acceleration_z as i64, numerator: 30, denominator: 32768 },
                ),
            )
        } else {
            None
        }
    }

    /// The gyro rate along (x, y, z) in degrees per second, when all three
    /// are valid
    pub fn gyro_rate(&self) -> (r: Option<(Scaled, Scaled, Scaled)>)
        ensures
            r == (if self.valid(3) && self.valid(4) && self.valid(5) {
                Some(
                    (
                        Scaled { raw: self.gyro_rate_x as i64, numerator: 750, denominator: 32768 },
                        Scaled { raw: self.gyro_rate_y as i64, numerator: 750, denominator: 32768 },
                        Scaled { raw: self.gyro_rate_z as i64, numerator: 750, denominator: 32768 },
                    ),
                )
            } else {
                None
            }),
    {
        if self.is_gyro_rate_x_valid() && self.is_gyro_rate_y_valid() && self.is_gyro_rate_z_valid() {
            Some(
                (
                    Scaled { raw: self.gyro_rate_x as i64, numerator: 750, denominator: 32768 },
                    Scaled { raw: self.gyro_rate_y as i64, numerator: 750, denominator: 32768 },
                    Scaled { raw: self.gyro_rate_z as i64, numerator: 750, denominator: 32768 },
                ),
            )
        } else {
            None
        }
    }

    /// The pitch in degrees, bow up positive
    pub fn pitch(&self) -> (r: Option<Scaled>)
        ensures
            r == self.pitch_spec(),
    {
        if self.is_pitch_valid() {
            Some(Scaled { raw: self.pitch as i64, numerator: 180, denominator: 32768 })
        } else {
            None
        }
    }

    /// The roll in degrees, port up positive
    pub fn roll(&self) -> (r: Option<Scaled>)
        ensures
            r == self.roll_spec(),
    {
        if self.is_roll_valid() {
            Some(Scaled { raw: self.roll as i64, numerator: 180, denominator: 32768 })
        } else {
            None
        }
    }

    /// The temperature in degrees Celsius
    pub fn temperature(&self) -> (r: Option<Scaled>)
        ensures
            r == rescaled(self.valid(10), self.temperature as int, 1, 10),
    {
        if self.is_temperature_valid() {
            Some(Scaled { raw: self.temperature as i64, numerator: 1, denominator: 10 })
        } else {
            None
        }
    }

    /// Return the device info
    pub fn device_info(&self) -> (r: Option<u16>)
        ensures
            r == (if self.valid(11) {
                Some(self.device_info)
            } else {
                None
            }),
    {
        if self.is_device_info_valid() {
            Some(self.device_info)
        } else {
            None
        }
    }

    /// The heading in degrees
    pub fn heading(&self) -> (r: Option<Scaled>)
        ensures
            r == self.heading_spec(),
    {
        if self.is_heading_valid() {
            Some(Scaled { raw: self.heading as i64, numerator: 1, denominator: 100 })
        } else {
            None
        }
    }

    /// The heave in meters; the file holds millimeters
    pub fn heave(&self) -> (r: Option<Scaled>)
        ensures
            r == rescaled(self.valid(8), self.heave as int, 1, 1000),
    {
        if self.is_heave_valid() {
            Some(Scaled { raw: self.heave as i64, numerator: 1, denominator: 1000 })
        } else {
            None
        }
    }

    /// The yaw in degrees
    pub fn yaw(&self) -> (r: Option<Scaled>)
        ensures
            r == rescaled(self.valid(12), self.yaw as int, 1, 100),
    {
        if self.is_yaw_valid() {
            Some(Scaled { raw: self.yaw as i64, numerator: 1, denominator: 100 })
        } else {
            None
        }
    }
}


/// Whether a payload is what the bytes `b[s..s + size]` of a message of
/// type `t` hold.
pub open spec fn payload_spec(d: MessageType, t: int, b: Seq<u8>, s: int, size: int) -> bool {
    match d {
        MessageType::SonarData(x) => t == SONAR_DATA && x.fixed@ == b.subrange(s, s + 240)
            && x.trace@ == u16_seq(b, s + 240, (size - 240) / 2),
        MessageType::PitchRoll(x) => t == PITCH_ROLL && x == pitch_roll_spec(b, s),
        MessageType::NavigationOffsets(x) => t == NAVIGATION_OFFSETS && x
            == navigation_offsets_spec(b, s),
        MessageType::SystemInformation(x) => t == SYSTEM_INFORMATION && x
            == system_information_spec(b, s),
        MessageType::Nmea(x) => t == NMEA_STRING && x.time == le_i32(b, s) && x.milliseconds
            == le_i32(b, s + 4) && x.source == b[s + 8] && x.data@ == b.subrange(s + 12, s + size),
        MessageType::Unknown(x) => fixed_len(t) == 0 && t != SONAR_DATA && x.data@ == b.subrange(
            s,
            s + size,
        ),
    }
}

fn parse_sonar_data(b: &[u8], s: usize, size: usize) -> (r: SonarData)
    requires
        SONAR_FIXED_LEN <= size,
        s + size <= b.len(),
    ensures
        r.fixed@ == b@.subrange(s as int, s + 240),
        r.trace@ == u16_seq(b@, s + 240, (size - 240) / 2),
{
    let fixed = copy_bytes(b, s, SONAR_FIXED_LEN);
    let trace = read_u16_seq(b, s + SONAR_FIXED_LEN, (size - SONAR_FIXED_LEN) / 2);
    SonarData { fixed, trace }
}

fn parse_pitch_roll(b: &[u8], s: usize) -> (r: PitchRollData)
    requires
        s + 44 <= b.len(),
    ensures
        r == pitch_roll_spec(b@, s as int),
{
    PitchRollData {
        time: read_i32_le(b, s),
        milliseconds: read_i32_le(b, s + 4),
        acceleration_x: read_i16_le(b, s + 12),
        acceleration_y: read_i16_le(b, s + 14),
        acceleration_z: read_i16_le(b, s + 16),
        gyro_rate_x: read_i16_le(b, s + 18),
        gyro_rate_y: read_i16_le(b, s + 20),
        gyro_rate_z: read_i16_le(b, s + 22),
        pitch: read_i16_le(b, s + 24),
        roll: read_i16_le(b, s + 26),
        temperature: read_i16_le(b, s + 28),
        device_info: read_u16_le(b, s + 30),
        heave: read_i16_le(b, s + 32),
        heading: read_u16_le(b, s + 34),
        validity_flag: read_i32_le(b, s + 36),
        yaw: read_i16_le(b, s + 40),
    }
}

fn parse_navigation_offsets(b: &[u8], s: usize) -> (r: NavigationOffsets)
    requires
        s + 64 <= b.len(),
    ensures
        r == navigation_offsets_spec(b@, s as int),
{
    NavigationOffsets {
        x: read_u32_le(b, s),
        y: read_u32_le(b, s + 4),
        latitude: read_u32_le(b, s + 8),
        longitude: read_u32_le(b, s + 12),
        aft: read_u32_le(b, s + 16),
        starboard: read_u32_le(b, s + 20),
        depth: read_u32_le(b, s + 24),
        altitude: read_u32_le(b, s + 28),
        heading: read_u32_le(b, s + 32),
        pitch: read_u32_le(b, s + 36),
        roll: read_u32_le(b, s + 40),
        yaw: read_u32_le(b, s + 44),
        tow_point_elevation: read_u32_le(b, s + 48),
    }
}

fn parse_system_information(b: &[u8], s: usize) -> (r: SystemInformation)
    requires
        s + 24 <= b.len(),
    ensures
        r == system_information_spec(b@, s as int),
{
    SystemInformation {
        system_type: read_i32_le(b, s),
        low_rate_io: read_i32_le(b, s + 4),
        version_number: read_i32_le(b, s + 8),
        n_subsystems: read_i32_le(b, s + 12),
        n_serial_ports: read_i32_le(b, s + 16),
        serial_number: read_i32_le(b, s + 20),
    }
}

fn parse_nmea(b: &[u8], s: usize, size: usize) -> (r: NMEAString)
    requires
        12 <= size,
        s + size <= b.len(),
    ensures
        r.time == le_i32(b@, s as int),
        r.milliseconds == le_i32(b@, s + 4),
        r.source == b@[s + 8],
        r.data@ == b@.subrange(s + 12, s + size),
{
    NMEAString {
        time: read_i32_le(b, s),
        milliseconds: read_i32_le(b, s + 4),
        source: b[s + 8],
        data: copy_bytes(b, s + 12, size - 12),
    }
}

fn fixed_len_of(message_type: u16) -> (r: usize)
    ensures
        r == fixed_len(message_type as int),
{
    if message_type == SONAR_DATA {
        240
    } else if message_type == PITCH_ROLL {
        44
    } else if message_type == NAVIGATION_OFFSETS {
        64
    } else if message_type == SYSTEM_INFORMATION {
        24
    } else if message_type == NMEA_STRING {
        12
    } else {
        0
    }
}

/// Parse the header of a JSF message at the start of `input`.
pub fn message_header(input: &[u8]) -> (r: Result<MessageHeader, DecodeError>)
    ensures
        input@.len() < 2 ==> r == Err::<MessageHeader, DecodeError>(
            DecodeError::Truncated { position: 0 },
        ),
        input@.len() >= 2 && !magic_at(input@, 0) ==> r == Err::<MessageHeader, DecodeError>(
            DecodeError::BadMagic { position: 0 },
        ),
        input@.len() >= 2 && magic_at(input@, 0) && input@.len() < HEADER_LEN ==> r == Err::<
            MessageHeader,
            DecodeError,
        >(DecodeError::Truncated { position: 0 }),
        input@.len() >= HEADER_LEN && magic_at(input@, 0) ==> r == Ok::<MessageHeader, DecodeError>(
            header_spec(input@, 0),
        ),
{
    if input.len() < 2 {
        return Err(DecodeError::Truncated { position: 0 });
    }
    if !(input[0] == 0x01 && input[1] == 0x16) {
        return Err(DecodeError::BadMagic { position: 0 });
    }
    if input.len() < HEADER_LEN {
        return Err(DecodeError::Truncated { position: 0 });
    }
    Ok(
        MessageHeader {
            protocol: input[2],
            session_id: input[3],
            message_type: read_u16_le(input, 4),
            command_type: input[6],
            subsystem_number: input[7],
            channel: input[8],
            sequence_number: input[9],
            message_size: read_i32_le(input, 12),
        },
    )
}

/// Decode the message that starts at `pos`.
///
/// Returns `Ok(None)` when `pos` is the end of the stream, the message and
/// the position right after it when one is there, and the error otherwise.
/// A type code outside the known shapes decodes as an unknown message.
pub fn decode_message(b: &[u8], pos: usize) -> (r: Result<Option<(Message, usize)>, DecodeError>)
    requires
        pos <= b.len(),
    ensures
        pos == b.len() ==> r matches Ok(None),
        match step_spec(b@, pos as int) {
            FrameStep::End => r matches Ok(None),
            FrameStep::Fail(e) => match r {
                Err(e2) => e2 == e,
                _ => false,
            },
            FrameStep::Next(n) => match r {
                Ok(Some((m, next))) => next == n && m.header == header_spec(b@, pos as int)
                    && m.wf() && payload_spec(
                    m.data,
                    m.header.message_type as int,
                    b@,
                    pos + HEADER_LEN,
                    m.header.message_size as int,
                ),
                _ => false,
            },
        },
{
    let n = b.len() - pos;
    if n == 0 {
        return Ok(None);
    }
    if n < 2 {
        return Err(DecodeError::Truncated { position: pos });
    }
    if !(b[pos] == 0x01 && b[pos + 1] == 0x16) {
        return Err(DecodeError::BadMagic { position: pos });
    }
    if n < HEADER_LEN {
        return Err(DecodeError::Truncated { position: pos });
    }
    let header = MessageHeader {
        protocol: b[pos + 2],
        session_id: b[pos + 3],
        message_type: read_u16_le(b, pos + 4),
        command_type: b[pos + 6],
        subsystem_number: b[pos + 7],
        channel: b[pos + 8],
        sequence_number: b[pos + 9],
        message_size: read_i32_le(b, pos + 12),
    };
    let fixed = fixed_len_of(header.message_type);
    if header.message_size < 0 || (header.message_size as usize) < fixed {
        return Err(DecodeError::BadSize { position: pos });
    }
    let size = header.message_size as usize;
    if n - HEADER_LEN < size {
        return Err(DecodeError::Truncated { position: pos });
    }
    let s = pos + HEADER_LEN;
    let t = header.message_type;
    let data = if t == SONAR_DATA {
        MessageType::SonarData(parse_sonar_data(b, s, size))
    } else if t == PITCH_ROLL {
        MessageType::PitchRoll(parse_pitch_roll(b, s))
    } else if t == NAVIGATION_OFFSETS {
        MessageType::NavigationOffsets(parse_navigation_offsets(b, s))
    } else if t == SYSTEM_INFORMATION {
        MessageType::SystemInformation(parse_system_information(b, s))
    } else if t == NMEA_STRING {
        MessageType::Nmea(parse_nmea(b, s, size))
    } else {
        MessageType::Unknown(UnknownMessage { data: copy_bytes(b, s, size) })
    };
    Ok(Some((Message { header, data }, s + size)))
}


/// The key of the record that the message at `p` converts to: sonar data
/// is a ping on the message's channel, pitch-roll data an orientation, and
/// every other message has no key.
pub open spec fn key_at(b: Seq<u8>, p: int) -> Option<LockerKey> {
    let t = le_u16(b, p + 4);
    if t == SONAR_DATA {
        Some(
            LockerKey {
                kind: RecordKind::Ping,
                timestamp: sonar_timestamp(b, p + HEADER_LEN),
                channel: Channel::of_code_spec(b[p + 8] as int),
            },
        )
    } else if t == PITCH_ROLL {
        Some(
            LockerKey {
                kind: RecordKind::Orientation,
                timestamp: pitch_roll_spec(b, p + HEADER_LEN).timestamp_spec(),
                channel: Channel::Other,
            },
        )
    } else {
        None
    }
}

/// The key of the record that a message converts to.
pub open spec fn message_key(m: Message) -> Option<LockerKey> {
    match m.data {
        MessageType::SonarData(x) => Some(
            LockerKey {
                kind: RecordKind::Ping,
                timestamp: x.timestamp_spec(),
                channel: Channel::of_code_spec(m.header.channel as int),
            },
        ),
        MessageType::PitchRoll(x) => Some(
            LockerKey {
                kind: RecordKind::Orientation,
                timestamp: x.timestamp_spec(),
                channel: Channel::Other,
            },
        ),
        _ => None,
    }
}

/// A decoded message has the key that its bytes give.
pub proof fn lemma_message_key(b: Seq<u8>, p: int, m: Message)
    requires
        0 <= p <= b.len(),
        step_spec(b, p) is Next,
        m.header == header_spec(b, p),
        payload_spec(m.data, m.header.message_type as int, b, p + HEADER_LEN, m.header.message_size as int),
    ensures
        message_key(m) == key_at(b, p),
{
    match m.data {
        MessageType::SonarData(x) => {
            let s = p + HEADER_LEN;
            assert(s + 240 <= b.len());
            assert forall|k: int| 0 <= k < 240 implies x.fixed@[k] == b[s + k] by {}
            assert(le_i32(x.fixed@, 0) == le_i32(b, s));
            assert(le_u32(x.fixed@, 200) == le_u32(b, s + 200));
        },
        _ => {},
    }
}

impl Message {
    pub open spec fn wf(&self) -> bool {
        match self.data {
            MessageType::SonarData(x) => x.wf(),
            _ => true,
        }
    }

    /// The channel of the message: 0 is port, 1 starboard, the rest other.
    pub fn channel(&self) -> (r: Channel)
        ensures
            r == Channel::of_code_spec(self.header.channel as int),
    {
        Channel::of_code(self.header.channel)
    }

    /// The key of the record that this message converts to.
    pub fn key(&self) -> (r: Option<LockerKey>)
        requires
            self.wf(),
        ensures
            r == message_key(*self),
    {
        match &self.data {
            MessageType::SonarData(x) => Some(
                LockerKey { kind: RecordKind::Ping, timestamp: x.timestamp(), channel: self.channel() },
            ),
            MessageType::PitchRoll(x) => Some(
                LockerKey {
                    kind: RecordKind::Orientation,
                    timestamp: x.timestamp(),
                    channel: Channel::Other,
                },
            ),
            _ => None,
        }
    }

    /// Convert the message to a canonical record: sonar data becomes a ping,
    /// pitch-roll data an orientation, and everything else an unknown record.
    pub fn into_record(self) -> (r: SonarDataRecord<u16>)
        requires
            self.wf(),
        ensures
            record_key(r) == message_key(self),
            match self.data {
                MessageType::SonarData(x) => match r {
                    SonarDataRecord::Ping(p) => p.source@ == "unknown"@ && p.frequency
                        == Quantity::Float32Bits(le_u32(x.fixed@, 152) as u32)
                        && p.sampling_interval == (Scaled {
                        raw: le_u32(x.fixed@, 116) as i64,
                        numerator: 1,
                        denominator: 1_000_000_000,
                    }) && p.data@ == x.trace@,
                    _ => false,
                },
                MessageType::PitchRoll(x) => match r {
                    SonarDataRecord::Orientation(o) => o.source@ == "unknown"@ && o.pitch
                        == x.pitch_spec() && o.roll == x.roll_spec() && o.heading
                        == x.heading_spec(),
                    _ => false,
                },
                _ => r is Unknown,
            },
    {
        let channel = self.channel();
        match self.data {
            MessageType::SonarData(x) => {
                let timestamp = x.timestamp();
                let frequency = x.mixer_frequency();
                let interval = x.sampling_interval();
                SonarDataRecord::Ping(
                    Ping::new("unknown".to_owned(), timestamp, frequency, interval, channel, x.trace),
                )
            },
            MessageType::PitchRoll(x) => SonarDataRecord::Orientation(
                Orientation::new(
                    "unknown".to_owned(),
                    x.timestamp(),
                    x.pitch(),
                    x.roll(),
                    x.heading(),
                ),
            ),
            _ => SonarDataRecord::Unknown,
        }
    }
}

/// Decode the message at the start of `frame` and convert it to a record.
/// A stream that ends before any message is cut short here.
pub fn read_record(frame: &[u8]) -> (r: Result<SonarDataRecord<u16>, DecodeError>)
    ensures
        match step_spec(frame@, 0) {
            FrameStep::End => r == Err::<SonarDataRecord<u16>, DecodeError>(
                DecodeError::Truncated { position: 0 },
            ),
            FrameStep::Fail(e) => r == Err::<SonarDataRecord<u16>, DecodeError>(e),
            FrameStep::Next(_) => match r {
                Ok(rec) => record_key(rec) == key_at(frame@, 0),
                Err(_) => false,
            },
        },
{
    match decode_message(frame, 0) {
        Ok(Some((m, _))) => {
            proof {
                assert(frame@.len() >= HEADER_LEN);
                lemma_message_key(frame@, 0, m);
            }
            Ok(m.into_record())
        },
        Ok(None) => Err(DecodeError::Truncated { position: 0 }),
        Err(e) => Err(e),
    }
}


/// The start positions of the messages from `p` to the end of the stream,
/// or the first error met on the way.
pub open spec fn frames_from(b: Seq<u8>, p: int) -> Result<Seq<int>, DecodeError>
    decreases b.len() - p,
{
    if p < 0 || p > b.len() {
        Err(DecodeError::Truncated { position: p as usize })
    } else {
        match step_spec(b, p) {
            FrameStep::End => Ok(Seq::empty()),
            FrameStep::Fail(e) => Err(e),
            FrameStep::Next(n) => if p < n <= b.len() {
                match frames_from(b, n) {
                    Ok(rest) => Ok(seq![p] + rest),
                    Err(e) => Err(e),
                }
            } else {
                Err(DecodeError::Truncated { position: p as usize })
            },
        }
    }
}

/// The messages of a whole stream: the positions where they start, or the
/// first decoding error.
pub open spec fn frames(b: Seq<u8>) -> Result<Seq<int>, DecodeError> {
    frames_from(b, 0)
}

/// A message that has a key, and where it starts.
#[derive(Debug, Clone, Copy, PartialEq, Eq, Structural)]
pub struct ScanEntry {
    pub offset: u64,
    pub key: LockerKey,
}

/// The entries of the keyed messages among those that start at `ps`, in
/// stream order.
pub open spec fn entries_of(b: Seq<u8>, ps: Seq<int>) -> Seq<ScanEntry>
    decreases ps.len(),
{
    if ps.len() == 0 {
        Seq::empty()
    } else {
        let p = ps.last();
        let before = entries_of(b, ps.drop_last());
        match key_at(b, p) {
            Some(k) => before.push(ScanEntry { offset: p as u64, key: k }),
            None => before,
        }
    }
}

/// The result of decoding a whole file: the key and offset of every
/// message that has a key, and, as a ghost, the bytes that were decoded.
pub struct FileScan {
    pub entries: Vec<ScanEntry>,
    pub contents: Ghost<Seq<u8>>,
}

impl FileScan {
    /// Every entry is the key of the message that starts at its offset.
    pub open spec fn wf(&self) -> bool {
        entries_ok(self.contents@, self.entries@)
    }
}

proof fn lemma_frames_prefix(b: Seq<u8>, ps: Seq<int>, pos: int, n: int)
    requires
        0 <= pos <= b.len(),
        step_spec(b, pos) == FrameStep::Next(n),
        pos < n <= b.len(),
        frames(b) == (match frames_from(b, pos) {
            Ok(rest) => Ok(ps + rest),
            Err(e) => Err::<Seq<int>, DecodeError>(e),
        }),
    ensures
        frames(b) == (match frames_from(b, n) {
            Ok(rest) => Ok(ps.push(pos) + rest),
            Err(e) => Err::<Seq<int>, DecodeError>(e),
        }),
{
    match frames_from(b, n) {
        Ok(rest) => {
            assert(ps + (seq![pos] + rest) =~= ps.push(pos) + rest);
        },
        Err(e) => {},
    }
}

/// Whether every entry is the key of a well-framed message that starts at
/// its offset.
pub open spec fn entries_ok(b: Seq<u8>, es: Seq<ScanEntry>) -> bool {
    forall|i: int| 0 <= i < es.len() ==> #[trigger] entry_ok(b, es[i])
}

pub open spec fn entry_ok(b: Seq<u8>, e: ScanEntry) -> bool {
    &&& e.offset <= b.len()
    &&& step_spec(b, e.offset as int) is Next
    &&& key_at(b, e.offset as int) == Some(e.key)
}

pub open spec fn positions_ok(b: Seq<u8>, ps: Seq<int>) -> bool {
    forall|i: int| 0 <= i < ps.len() ==> #[trigger] position_ok(b, ps[i])
}

pub open spec fn position_ok(b: Seq<u8>, p: int) -> bool {
    0 <= p <= b.len() && step_spec(b, p) is Next
}

proof fn lemma_entries_ok(b: Seq<u8>, ps: Seq<int>)
    requires
        positions_ok(b, ps),
        b.len() <= u64::MAX,
    ensures
        entries_ok(b, entries_of(b, ps)),
    decreases ps.len(),
{
    if ps.len() > 0 {
        let init = ps.drop_last();
        assert forall|i: int| 0 <= i < init.len() implies #[trigger] position_ok(b, init[i]) by {
            assert(init[i] == ps[i]);
        }
        lemma_entries_ok(b, init);
        let p = ps.last();
        assert(position_ok(b, ps[ps.len() - 1]));
        let before = entries_of(b, init);
        match key_at(b, p) {
            Some(k) => {
                let es = before.push(ScanEntry { offset: p as u64, key: k });
                assert(entry_ok(b, es[es.len() - 1]));
                assert forall|i: int| 0 <= i < es.len() implies #[trigger] entry_ok(b, es[i]) by {
                    if i < before.len() {
                        assert(es[i] == before[i]);
                    }
                }
            },
            None => {},
        }
    }
}

/// Decode a whole JSF stream and list the key and offset of each message
/// that has a key.
pub fn scan(b: &[u8]) -> (r: Result<FileScan, DecodeError>)
    ensures
        match frames(b@) {
            Ok(ps) => match r {
                Ok(fs) => fs.entries@ == entries_of(b@, ps) && fs.contents@ == b@ && fs.wf(),
                Err(_) => false,
            },
            Err(e) => match r {
                Err(e2) => e2 == e,
                Ok(_) => false,
            },
        },
{
    let mut entries: Vec<ScanEntry> = Vec::new();
    let mut pos: usize = 0;
    let ghost mut ps: Seq<int> = Seq::empty();
    proof {
        match frames_from(b@, 0) {
            Ok(rest) => {
                assert(ps + rest =~= rest);
            },
            Err(_) => {},
        }
    }
    while pos <= b.len()
        invariant
            pos <= b.len(),
            frames(b@) == (match frames_from(b@, pos as int) {
                Ok(rest) => Ok(ps + rest),
                Err(e) => Err::<Seq<int>, DecodeError>(e),
            }),
            entries@ == entries_of(b@, ps),
            positions_ok(b@, ps),
        decreases b.len() - pos,
    {
        match decode_message(b, pos) {
            Ok(Some((m, next))) => {
                proof {
                    lemma_message_key(b@, pos as int, m);
                    lemma_frames_prefix(b@, ps, pos as int, next as int);
                }
                let key = m.key();
                match key {
                    Some(k) => {
                        entries.push(ScanEntry { offset: pos as u64, key: k });
                    },
                    None => {},
                }
                proof {
                    let ps2 = ps.push(pos as int);
                    assert(ps2.drop_last() =~= ps);
                    assert(position_ok(b@, pos as int));
                    assert forall|i: int| 0 <= i < ps2.len() implies #[trigger] position_ok(b@, ps2[i]) by {
                        if i < ps.len() {
                            assert(ps2[i] == ps[i]);
                        }
                    }
                    ps = ps2;
                }
                pos = next;
            },
            Ok(None) => {
                proof {
                    assert(ps + Seq::<int>::empty() =~= ps);
                    lemma_entries_ok(b@, ps);
                }
                return Ok(FileScan { entries, contents: Ghost(b@) });
            },
            Err(e) => {
                return Err(e);
            },
        }
    }
    Err(DecodeError::Truncated { position: pos })
}


/// A message frames and keys the same when its bytes are cut out of the
/// stream on their own, as a reader that seeks to its offset sees them.
#[verifier::rlimit(40)]
pub proof fn lemma_frame_window(b: Seq<u8>, p: int)
    requires
        0 <= p <= b.len(),
        step_spec(b, p) is Next,
    ensures
        match step_spec(b, p) {
            FrameStep::Next(n) => step_spec(b.subrange(p, n), 0) == FrameStep::Next(n - p) && key_at(
                b.subrange(p, n),
                0,
            ) == key_at(b, p),
            _ => false,
        },
{
    if let FrameStep::Next(n) = step_spec(b, p) {
        let w = b.subrange(p, n);
        assert forall|k: int| 0 <= k < n - p implies w[k] == b[p + k] by {}
        assert(w.len() == n - p);
        assert(w[0] == b[p] && w[1] == b[p + 1]);
        assert(le_i32(w, 12) == le_i32(b, p + 12));
        assert(le_u16(w, 4) == le_u16(b, p + 4));
        let t = le_u16(b, p + 4);
        if t == SONAR_DATA {
            assert(le_i32(w, 16) == le_i32(b, p + 16));
            assert(le_u32(w, 216) == le_u32(b, p + 216));
        } else if t == PITCH_ROLL {
            assert(pitch_roll_spec(w, 16) == pitch_roll_spec(b, p + 16));
        }
    }
}

/// The kind of the record that the message at `p` converts to, or `None`
/// for an unknown record.
pub open spec fn kind_at(b: Seq<u8>, p: int) -> Option<RecordKind> {
    match key_at(b, p) {
        Some(k) => Some(k.kind),
        None => None,
    }
}

/// How many of the messages that start at `ps` convert to records of kind
/// `kind` (`None` counts the unknown records).
pub open spec fn count_kind(b: Seq<u8>, ps: Seq<int>, kind: Option<RecordKind>) -> nat
    decreases ps.len(),
{
    if ps.len() == 0 {
        0
    } else {
        count_kind(b, ps.drop_last(), kind) + if kind_at(b, ps.last()) == kind {
            1nat
        } else {
            0nat
        }
    }
}

/// The number of records of each kind in a stream.
#[derive(Debug, Clone, Copy, PartialEq, Eq, Structural)]
pub struct RecordCounts {
    pub ping: u64,
    pub position: u64,
    pub orientation: u64,
    pub course: u64,
    pub unknown: u64,
}

impl RecordCounts {
    /// The counts of the records of the messages that start at `ps`.
    pub open spec fn counts_of(self, b: Seq<u8>, ps: Seq<int>) -> bool {
        &&& self.ping == count_kind(b, ps, Some(RecordKind::Ping))
        &&& self.position == count_kind(b, ps, Some(RecordKind::Position))
        &&& self.orientation == count_kind(b, ps, Some(RecordKind::Orientation))
        &&& self.course == count_kind(b, ps, Some(RecordKind::Course))
        &&& self.unknown == count_kind(b, ps, None)
    }
}

proof fn lemma_count_total(b: Seq<u8>, ps: Seq<int>)
    ensures
        count_kind(b, ps, Some(RecordKind::Ping)) + count_kind(b, ps, Some(RecordKind::Position))
            + count_kind(b, ps, Some(RecordKind::Orientation)) + count_kind(
            b,
            ps,
            Some(RecordKind::Course),
        ) + count_kind(b, ps, None) == ps.len(),
    decreases ps.len(),
{
    if ps.len() > 0 {
        lemma_count_total(b, ps.drop_last());
    }
}

/// Decode a whole JSF stream and count its records by kind.
pub fn count_records(b: &[u8]) -> (r: Result<RecordCounts, DecodeError>)
    ensures
        match frames(b@) {
            Ok(ps) => match r {
                Ok(c) => c.counts_of(b@, ps),
                Err(_) => false,
            },
            Err(e) => match r {
                Err(e2) => e2 == e,
                Ok(_) => false,
            },
        },
{
    let mut c = RecordCounts { ping: 0, position: 0, orientation: 0, course: 0, unknown: 0 };
    let mut pos: usize = 0;
    let ghost mut ps: Seq<int> = Seq::empty();
    proof {
        match frames_from(b@, 0) {
            Ok(rest) => {
                assert(ps + rest =~= rest);
            },
            Err(_) => {},
        }
    }
    while pos <= b.len()
        invariant
            pos <= b.len(),
            frames(b@) == (match frames_from(b@, pos as int) {
                Ok(rest) => Ok(ps + rest),
                Err(e) => Err::<Seq<int>, DecodeError>(e),
            }),
            c.counts_of(b@, ps),
            ps.len() <= pos,
        decreases b.len() - pos,
    {
        match decode_message(b, pos) {
            Ok(Some((m, next))) => {
                proof {
                    lemma_message_key(b@, pos as int, m);
                    lemma_frames_prefix(b@, ps, pos as int, next as int);
                    lemma_count_total(b@, ps);
                }
                let key = m.key();
                match key {
                    Some(k) => match k.kind {
                        RecordKind::Ping => c.ping = c.ping + 1,
                        RecordKind::Position => c.position = c.position + 1,
                        RecordKind::Orientation => c.orientation = c.orientation + 1,
                        RecordKind::Course => c.course = c.course + 1,
                    },
                    None => c.unknown = c.unknown + 1,
                }
                proof {
                    let ps2 = ps.push(pos as int);
                    assert(ps2.drop_last() =~= ps);
                    ps = ps2;
                }
                pos = next;
            },
            Ok(None) => {
                proof {
                    assert(ps + Seq::<int>::empty() =~= ps);
                }
                return Ok(c);
            },
            Err(e) => {
                return Err(e);
            },
        }
    }
    Err(DecodeError::Truncated { position: pos })
}


/// The decoder of JSF messages
pub struct MessageDecoder;

impl FrameDecoder for MessageDecoder {
    type Frame = Message;

    open spec fn step(b: Seq<u8>, p: int) -> FrameStep {
        step_spec(b, p)
    }

    fn decode(b: &[u8], pos: usize) -> (r: Result<Option<(Message, usize)>, DecodeError>) {
        decode_message(b, pos)
    }
}

/// An iterator interface to the messages of a JSF stream
pub struct File {
    reader: Vec<u8>,
    pos: usize,
}

impl File {
    /// The bytes of the stream.
    pub closed spec fn bytes(&self) -> Seq<u8> {
        self.reader@
    }

    /// The position of the next message.
    pub closed spec fn position(&self) -> int {
        self.pos as int
    }

    pub closed spec fn wf(&self) -> bool {
        self.pos <= self.reader@.len()
    }

    /// Create a JSF stream over the given bytes, positioned at the start
    pub fn new(reader: Vec<u8>) -> (r: File)
        ensures
            r.wf(),
            r.bytes() == reader@,
            r.position() == 0,
    {
        File { reader, pos: 0 }
    }

    /// Create a JSF stream over the given bytes after checking that a
    /// message can be read at its start. An empty stream has no message and
    /// is refused as cut short.
    pub fn open(reader: Vec<u8>) -> (r: Result<File, DecodeError>)
        ensures
            match step_spec(reader@, 0) {
                FrameStep::End => r == Err::<File, DecodeError>(DecodeError::Truncated { position: 0 }),
                FrameStep::Fail(e) => r == Err::<File, DecodeError>(e),
                FrameStep::Next(_) => match r {
                    Ok(f) => f.wf() && f.bytes() == reader@ && f.position() == 0,
                    Err(_) => false,
                },
            },
    {
        match decode_message(reader.as_slice(), 0) {
            Ok(Some(_)) => Ok(File { reader, pos: 0 }),
            Ok(None) => Err(DecodeError::Truncated { position: 0 }),
            Err(e) => Err(e),
        }
    }

    /// Return the position of the next message in the stream
    pub fn stream_position(&self) -> (r: u64)
        requires
            self.wf(),
        ensures
            r == self.position(),
    {
        self.pos as u64
    }

    /// The next message: `None` at the end of the stream, the message when
    /// one is there, and the error otherwise. After an error the stream is
    /// at its end, so iteration stops.
    pub fn next(&mut self) -> (r: Option<Result<Message, DecodeError>>)
        requires
            old(self).wf(),
        ensures
            final(self).wf(),
            final(self).bytes() == old(self).bytes(),
            match step_spec(old(self).bytes(), old(self).position()) {
                FrameStep::End => r is None && final(self).position() == old(self).position(),
                FrameStep::Fail(e) => r == Some(Err::<Message, DecodeError>(e)) && final(self).position()
                    == old(self).bytes().len(),
                FrameStep::Next(n) => match r {
                    Some(Ok(m)) => final(self).position() == n && m.header == header_spec(
                        old(self).bytes(),
                        old(self).position(),
                    ) && m.wf() && payload_spec(
                        m.data,
                        m.header.message_type as int,
                        old(self).bytes(),
                        old(self).position() + HEADER_LEN,
                        m.header.message_size as int,
                    ),
                    _ => false,
                },
            },
    {
        match decode_message(self.reader.as_slice(), self.pos) {
            Ok(Some((m, next))) => {
                self.pos = next;
                Some(Ok(m))
            },
            Ok(None) => None,
            Err(e) => {
                self.pos = self.reader.len();
                Some(Err(e))
            },
        }
    }
}

} // verus!
