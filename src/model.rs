//! The canonical record model that every decoder maps into.
use vstd::prelude::*;

verus! {

/// The channel for multi-channel sensors
///
/// This distinguishes pings to the port side from those to starboard. All
/// other channels are represented as `Other`. The declaration order is the
/// key order: `Port < Starboard < Other`.
#[derive(Debug, Clone, Copy, PartialEq, Eq, Structural, PartialOrd, Ord, Hash)]
pub enum Channel {
    /// A ping to port
    Port,
    /// A ping to starboard
    Starboard,
    /// Some other channel
    Other,
}

impl Channel {
    /// The position of the channel in key order.
    pub open spec fn rank(self) -> int {
        match self {
            Channel::Port => 0,
            Channel::Starboard => 1,
            Channel::Other => 2,
        }
    }

    /// The channel of a numeric channel code: 0 is port, 1 starboard, the rest other.
    pub open spec fn of_code_spec(code: int) -> Channel {
        if code == 0 {
            Channel::Port
        } else if code == 1 {
            Channel::Starboard
        } else {
            Channel::Other
        }
    }

    /// Map a numeric channel code to a channel.
    pub fn of_code(code: u8) -> (r: Channel)
        ensures
            r == Channel::of_code_spec(code as int),
    {
        match code {
            0 => Channel::Port,
            1 => Channel::Starboard,
            _ => Channel::Other,
        }
    }
}

/// Why a frame could not be decoded. Each error carries the byte position
/// at which the frame started.
#[derive(Debug, Clone, Copy, PartialEq, Eq, Structural)]
pub enum DecodeError {
    /// The frame does not start with the format's magic bytes.
    BadMagic { position: usize },
    /// The stream ends inside the frame.
    Truncated { position: usize },
    /// The declared size cannot hold the fixed part of the frame's shape.
    BadSize { position: usize },
    /// The frame does not end with the format's termination byte.
    BadTerminator { position: usize },
    /// A text field of the frame is not UTF-8.
    BadText { position: usize },
}

/// What reading a frame at a position of a stream comes to, as far as
/// framing goes.
pub enum FrameStep {
    /// The stream ends exactly here: no more frames.
    End,
    /// The bytes here are not a well-formed frame.
    Fail(DecodeError),
    /// A frame starts here and the next one starts at the position given.
    Next(int),
}

/// The kinds of canonical records that have an index key. The declaration
/// order is the order of their names, which is the key order.
#[derive(Debug, Clone, Copy, PartialEq, Eq, Structural, PartialOrd, Ord, Hash)]
pub enum RecordKind {
    Course,
    Orientation,
    Ping,
    Position,
}

impl RecordKind {
    /// The position of the kind in key order.
    pub open spec fn rank(self) -> int {
        match self {
            RecordKind::Course => 0,
            RecordKind::Orientation => 1,
            RecordKind::Ping => 2,
            RecordKind::Position => 3,
        }
    }

    pub open spec fn name_spec(self) -> Seq<char> {
        match self {
            RecordKind::Course => "Course"@,
            RecordKind::Orientation => "Orientation"@,
            RecordKind::Ping => "Ping"@,
            RecordKind::Position => "Position"@,
        }
    }

    /// The name of the kind, as the tag that starts an index key.
    pub fn name(&self) -> (r: String)
        ensures
            r@ == self.name_spec(),
    {
        match self {
            RecordKind::Course => "Course".to_owned(),
            RecordKind::Orientation => "Orientation".to_owned(),
            RecordKind::Ping => "Ping".to_owned(),
            RecordKind::Position => "Position".to_owned(),
        }
    }
}

/// An absolute UTC instant, in milliseconds since the Unix epoch.
#[derive(Debug, Clone, Copy, PartialEq, Eq, Structural, PartialOrd, Ord, Hash)]
pub struct Timestamp {
    pub unix_millis: i64,
}

impl Timestamp {
    /// The instant `seconds` after the epoch plus `millis` milliseconds.
    pub fn from_parts(seconds: i64, millis: i64) -> (r: Timestamp)
        requires
            -1_000_000_000_000_000 <= seconds <= 1_000_000_000_000_000,
            -1_000_000 <= millis <= 1_000_000,
        ensures
            r.unix_millis == seconds * 1000 + millis,
    {
        Timestamp { unix_millis: seconds * 1000 + millis }
    }
}

/// A physical quantity stored exactly as the sensor encodes it: its value is
/// `raw * numerator / denominator` in the quantity's unit.
#[derive(Debug, Clone, Copy, PartialEq, Eq, Structural)]
pub struct Scaled {
    pub raw: i64,
    pub numerator: i64,
    pub denominator: i64,
}

/// The value of a quantity, either as a fixed-point scaled integer or as the
/// bits of an IEEE 754 single-precision number.
#[derive(Debug, Clone, Copy, PartialEq, Eq, Structural)]
pub enum Quantity {
    Fixed(Scaled),
    Float32Bits(u32),
}

/// A representation of a sonar ping
pub struct Ping<T> {
    /// The source of the sonar data
    pub source: String,
    /// The time at which the ping was acquired
    pub timestamp: Timestamp,
    /// The frequency of the sonar system, in hertz
    pub frequency: Quantity,
    /// The sampling interval of the data, in seconds
    pub sampling_interval: Scaled,
    /// The channel (Port, Starboard, Other)
    pub channel: Channel,
    /// The ping data
    pub data: Vec<T>,
}

impl<T> Ping<T> {
    /// Create a new Ping from the given data
    pub fn new(
        source: String,
        timestamp: Timestamp,
        frequency: Quantity,
        sampling_interval: Scaled,
        channel: Channel,
        data: Vec<T>,
    ) -> (r: Ping<T>)
        ensures
            r.source@ == source@,
            r.timestamp == timestamp,
            r.frequency == frequency,
            r.sampling_interval == sampling_interval,
            r.channel == channel,
            r.data@ == data@,
    {
        Ping { source, timestamp, frequency, sampling_interval, channel, data }
    }

    /// Return the timestamp
    pub fn timestamp(&self) -> (r: Timestamp)
        ensures
            r == self.timestamp,
    {
        self.timestamp
    }
}

/// The position of a sensor
pub struct Position {
    /// The source of the position information
    pub source: String,
    /// The time at which the data were acquired
    pub timestamp: Timestamp,
    /// The longitude in degrees
    pub longitude: Option<Scaled>,
    /// The latitude in degrees
    pub latitude: Option<Scaled>,
    /// The altitude in meters relative to a datum that the user handles
    pub altitude: Option<Scaled>,
}

impl Position {
    /// Create a new Position from the given data
    pub fn new(
        source: String,
        timestamp: Timestamp,
        longitude: Option<Scaled>,
        latitude: Option<Scaled>,
        altitude: Option<Scaled>,
    ) -> (r: Position)
        ensures
            r.source@ == source@,
            r.timestamp == timestamp,
            r.longitude == longitude,
            r.latitude == latitude,
            r.altitude == altitude,
    {
        Position { source, timestamp, longitude, latitude, altitude }
    }
}

/// The orientation of the sensor
pub struct Orientation {
    /// The source of the orientation data
    pub source: String,
    /// The timestamp at which the data were acquired
    pub timestamp: Timestamp,
    /// The pitch of the sensor in degrees (bow up is positive)
    pub pitch: Option<Scaled>,
    /// The roll of the sensor in degrees (roll to starboard is positive)
    pub roll: Option<Scaled>,
    /// The heading of the sensor in degrees east of North
    pub heading: Option<Scaled>,
}

impl Orientation {
    /// Create a new Orientation from the given data
    pub fn new(
        source: String,
        timestamp: Timestamp,
        pitch: Option<Scaled>,
        roll: Option<Scaled>,
        heading: Option<Scaled>,
    ) -> (r: Orientation)
        ensures
            r.source@ == source@,
            r.timestamp == timestamp,
            r.pitch == pitch,
            r.roll == roll,
            r.heading == heading,
    {
        Orientation { source, timestamp, pitch, roll, heading }
    }
}

/// The course of the sensor
pub struct Course {
    /// The source of the course information
    pub source: String,
    /// The time at which the data were acquired
    pub timestamp: Timestamp,
    /// The speed of the sensor in m/s
    pub speed: Option<Scaled>,
    /// The heading or track made good of the sensor in degrees east of North
    pub heading: Option<Scaled>,
}

/// A SonarDataRecord encapsulates the data available to the toolkit
pub enum SonarDataRecord<T> {
    /// A wrapper for a Ping
    Ping(Ping<T>),
    /// A wrapper for a Position
    Position(Position),
    /// A wrapper for an Orientation
    Orientation(Orientation),
    /// A wrapper for a Course
    Course(Course),
    /// An unknown data type used as a catchall
    Unknown,
}


/// The name of the kind of a record.
pub open spec fn kind_name_spec<T>(rec: SonarDataRecord<T>) -> Seq<char> {
    match rec {
        SonarDataRecord::Ping(_) => "Ping"@,
        SonarDataRecord::Position(_) => "Position"@,
        SonarDataRecord::Orientation(_) => "Orientation"@,
        SonarDataRecord::Course(_) => "Course"@,
        SonarDataRecord::Unknown => "Unknown"@,
    }
}

/// The name of the kind of a record
pub fn kind_name<T>(rec: &SonarDataRecord<T>) -> (r: String)
    ensures
        r@ == kind_name_spec(*rec),
{
    match rec {
        SonarDataRecord::Ping(_) => "Ping".to_owned(),
        SonarDataRecord::Position(_) => "Position".to_owned(),
        SonarDataRecord::Orientation(_) => "Orientation".to_owned(),
        SonarDataRecord::Course(_) => "Course".to_owned(),
        SonarDataRecord::Unknown => "Unknown".to_owned(),
    }
}

} // verus!
