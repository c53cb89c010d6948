//! Decoding XTF files.
//!
//! An XTF file is a 1024-byte file header (magic `0x7B`) followed by
//! packets. Each packet starts with the magic `0xFACE`, a header type, a
//! sub-channel number, the number of channels that follow and the number of
//! bytes of the whole packet. Sonar packets (header type 0) hold a ping
//! header and one channel record per channel, each a 64-byte channel header
//! and its 16-bit samples; other packets are kept as unknown.
use vstd::prelude::*;
use crate::bytes::{copy_bytes, le_u16, le_u32, read_u16_le, read_u16_seq, read_u32_le, u16_seq};
use crate::frame::{count_frames, frame_count, FrameDecoder};
use crate::model::{DecodeError, FrameStep};

verus! {

/// The length of the file header.
pub const FILE_HEADER_LEN: usize = 1024;

/// The length of the header that every packet starts with.
pub const PACKET_HEADER_LEN: usize = 14;

/// The length of the rest of a ping header, after the packet header.
pub const PING_HEADER_LEN: usize = 242;

/// The length of a channel header.
pub const CHAN_HEADER_LEN: usize = 64;

/// The number of channel descriptions in the file header.
pub const N_CHANINFOS: usize = 6;

/// The length of a channel description in the file header.
pub const CHANINFO_LEN: usize = 128;

/// Whether a sequence of bytes is well-formed UTF-8.
pub uninterp spec fn is_utf8(b: Seq<u8>) -> bool;

/// Relies on `std::str::from_utf8`, which succeeds exactly when the bytes
/// are well-formed UTF-8.
#[verifier::external_body]
fn utf8_valid(b: &[u8]) -> (r: bool)
    ensures
        r == is_utf8(b@),
{
    std::str::from_utf8(b).is_ok()
}

/// The text fields of the file header, as (offset, length) pairs: the
/// recording program's name and version, the sonar name, the note, the file
/// name, and the name of each channel.
pub open spec fn text_field(i: int) -> (int, int) {
    if i == 0 {
        (2, 8)
    } else if i == 1 {
        (10, 8)
    } else if i == 2 {
        (18, 16)
    } else if i == 3 {
        (36, 64)
    } else if i == 4 {
        (100, 64)
    } else {
        (256 + (i - 5) * 128 + 12, 16)
    }
}

/// The number of text fields in the file header.
pub const N_TEXT_FIELDS: usize = 11;

fn text_field_of(i: usize) -> (r: (usize, usize))
    requires
        i < N_TEXT_FIELDS,
    ensures
        r.0 == text_field(i as int).0,
        r.1 == text_field(i as int).1,
        r.0 + r.1 <= FILE_HEADER_LEN,
{
    if i == 0 {
        (2, 8)
    } else if i == 1 {
        (10, 8)
    } else if i == 2 {
        (18, 16)
    } else if i == 3 {
        (36, 64)
    } else if i == 4 {
        (100, 64)
    } else {
        (256 + (i - 5) * 128 + 12, 16)
    }
}

/// The text of field `i` of a file header at the start of `b`.
pub open spec fn text_of(b: Seq<u8>, i: int) -> Seq<u8> {
    b.subrange(text_field(i).0, text_field(i).0 + text_field(i).1)
}

/// The XTF file header. Its fields are read on demand from its bytes.
pub struct FileHeader {
    pub raw: Vec<u8>,
}

/// What reading the file header at the start of `b` comes to.
pub open spec fn file_header_spec(b: Seq<u8>) -> Result<Seq<u8>, DecodeError> {
    if b.len() == 0 {
        Err(DecodeError::Truncated { position: 0 })
    } else if b[0] != 0x7b {
        Err(DecodeError::BadMagic { position: 0 })
    } else if b.len() < FILE_HEADER_LEN {
        Err(DecodeError::Truncated { position: 0 })
    } else if exists|i: int| 0 <= i < N_TEXT_FIELDS && !is_utf8(#[trigger] text_of(b, i)) {
        Err(DecodeError::BadText { position: 0 })
    } else {
        Ok(b.subrange(0, FILE_HEADER_LEN as int))
    }
}

/// Decode the file header at the start of `b`.
pub fn decode_file_header(b: &[u8]) -> (r: Result<FileHeader, DecodeError>)
    ensures
        match file_header_spec(b@) {
            Ok(raw) => match r {
                Ok(h) => h.raw@ == raw,
                Err(_) => false,
            },
            Err(e) => match r {
                Err(e2) => e2 == e,
                Ok(_) => false,
            },
        },
{
    if b.len() == 0 {
        return Err(DecodeError::Truncated { position: 0 });
    }
    if b[0] != 0x7b {
        return Err(DecodeError::BadMagic { position: 0 });
    }
    if b.len() < FILE_HEADER_LEN {
        return Err(DecodeError::Truncated { position: 0 });
    }
    let mut i: usize = 0;
    while i < N_TEXT_FIELDS
        invariant
            i <= N_TEXT_FIELDS,
            b@.len() >= FILE_HEADER_LEN,
            b@[0] == 0x7b,
            forall|j: int| 0 <= j < i ==> is_utf8(#[trigger] text_of(b@, j)),
        decreases N_TEXT_FIELDS - i,
    {
        let (start, len) = text_field_of(i);
        let field = copy_bytes(b, start, len);
        if !utf8_valid(field.as_slice()) {
            proof {
                assert(field@ == text_of(b@, i as int));
                assert(!is_utf8(text_of(b@, i as int)));
            }
            return Err(DecodeError::BadText { position: 0 });
        }
        proof {
            assert(field@ == text_of(b@, i as int));
        }
        i += 1;
    }
    Ok(FileHeader { raw: copy_bytes(b, 0, FILE_HEADER_LEN) })
}

impl FileHeader {
    pub open spec fn wf(&self) -> bool {
        self.raw@.len() == FILE_HEADER_LEN
    }

    /// The sonar system type
    pub fn system_type(&self) -> (r: u8)
        requires
            self.wf(),
        ensures
            r == self.raw@[1],
    {
        self.raw[1]
    }

    /// The number of sonar channels
    pub fn number_of_sonar_channels(&self) -> (r: u16)
        requires
            self.wf(),
        ensures
            r == le_u16(self.raw@, 166),
    {
        read_u16_le(self.raw.as_slice(), 166)
    }

    /// The number of bathymetry channels
    pub fn number_of_bathy_channels(&self) -> (r: u16)
        requires
            self.wf(),
        ensures
            r == le_u16(self.raw@, 168),
    {
        read_u16_le(self.raw.as_slice(), 168)
    }
}

/// The description of one channel in the file header, read on demand from
/// its bytes
pub struct ChanInfo {
    pub raw: Vec<u8>,
}

impl FileHeader {
    /// The description of channel `i`
    pub fn chan_info(&self, i: usize) -> (r: ChanInfo)
        requires
            self.wf(),
            i < N_CHANINFOS,
        ensures
            r.raw@ == self.raw@.subrange(256 + i * CHANINFO_LEN, 256 + (i + 1) * CHANINFO_LEN),
    {
        ChanInfo { raw: copy_bytes(self.raw.as_slice(), 256 + i * CHANINFO_LEN, CHANINFO_LEN) }
    }
}

impl ChanInfo {
    pub open spec fn wf(&self) -> bool {
        self.raw@.len() == CHANINFO_LEN
    }

    /// The type of the channel
    pub fn type_of_channel(&self) -> (r: u8)
        requires
            self.wf(),
        ensures
            r == self.raw@[0],
    {
        self.raw[0]
    }

    /// The sub-channel number
    pub fn sub_channel_number(&self) -> (r: u8)
        requires
            self.wf(),
        ensures
            r == self.raw@[1],
    {
        self.raw[1]
    }

    /// The number of bytes of each sample
    pub fn bytes_per_sample(&self) -> (r: u16)
        requires
            self.wf(),
        ensures
            r == le_u16(self.raw@, 6),
    {
        read_u16_le(self.raw.as_slice(), 6)
    }
}

/// A header describing ping- and channel-specific information, and the
/// samples of the channel
pub struct PingChanHeader {
    pub raw: Vec<u8>,
    pub data: SonarData,
}

/// The samples of a channel. Samples are read as 16-bit values.
pub enum SonarData {
    /// 8 bit sonar data
    U8(Vec<u8>),
    /// 16 bit sonar data
    U16(Vec<u16>),
    /// 32 bit sonar data
    U32(Vec<u32>),
}

/// A header describing ping-specific information, and the records of its
/// channels
pub struct PingHeader {
    pub raw: Vec<u8>,
    pub channel_data: Vec<PingChanHeader>,
}

/// A directory of packet types
pub enum PacketType {
    /// A packet for sidescan sonar data
    Sonar(PingHeader),
    /// Any other packet
    Unknown,
}

/// An XTF data packet
pub struct Packet {
    pub header_type: u8,
    pub sub_channel_number: u8,
    pub num_chans_to_follow: u16,
    pub num_bytes_this_record: u32,
    pub header: PacketType,
}

impl Packet {
    /// Return the name of the packet type
    pub fn packet_name(&self) -> (r: String)
        ensures
            r@ == (match self.header {
                PacketType::Sonar(_) => "Sonar"@,
                PacketType::Unknown => "Unknown"@,
            }),
    {
        match self.header {
            PacketType::Sonar(_) => "Sonar".to_owned(),
            PacketType::Unknown => "Unknown".to_owned(),
        }
    }
}

/// The number of samples of the channel record at `c`.
pub open spec fn num_samples_at(b: Seq<u8>, c: int) -> int {
    le_u32(b, c + 42)
}

/// The starts of `k` channel records laid one after another from `q`, and
/// the position after the last, when each of them ends by `end`.
pub open spec fn channel_walk(b: Seq<u8>, q: int, end: int, k: nat) -> Option<(Seq<int>, int)>
    decreases k,
{
    if k == 0 {
        Some((Seq::empty(), q))
    } else {
        match channel_walk(b, q, end, (k - 1) as nat) {
            Some((starts, c)) => if c + CHAN_HEADER_LEN <= end && c + CHAN_HEADER_LEN + 2
                * num_samples_at(b, c) <= end {
                Some((starts.push(c), c + CHAN_HEADER_LEN + 2 * num_samples_at(b, c)))
            } else {
                None
            },
            None => None,
        }
    }
}

pub open spec fn packet_magic_at(b: Seq<u8>, p: int) -> bool {
    b[p] == 0xce && b[p + 1] == 0xfa
}

/// Framing of the packet at `p`: clean end exactly at the end of the
/// stream, the magic, a declared size that holds the packet header, the
/// packet within the stream, and for sonar packets a ping header and
/// channel records that fit in the declared size.
pub open spec fn packet_step(b: Seq<u8>, p: int) -> FrameStep {
    let n = b.len() - p;
    let size = le_u32(b, p + 10);
    if n == 0 {
        FrameStep::End
    } else if n < 2 {
        FrameStep::Fail(DecodeError::Truncated { position: p as usize })
    } else if !packet_magic_at(b, p) {
        FrameStep::Fail(DecodeError::BadMagic { position: p as usize })
    } else if n < PACKET_HEADER_LEN {
        FrameStep::Fail(DecodeError::Truncated { position: p as usize })
    } else if size < PACKET_HEADER_LEN {
        FrameStep::Fail(DecodeError::BadSize { position: p as usize })
    } else if n < size {
        FrameStep::Fail(DecodeError::Truncated { position: p as usize })
    } else if b[p + 2] == 0 && (size < PACKET_HEADER_LEN + PING_HEADER_LEN || channel_walk(
        b,
        p + PACKET_HEADER_LEN + PING_HEADER_LEN,
        p + size,
        le_u16(b, p + 4) as nat,
    ) is None) {
        FrameStep::Fail(DecodeError::BadSize { position: p as usize })
    } else {
        FrameStep::Next(p + size)
    }
}

/// Whether a packet holds what the bytes at `p` give.
pub open spec fn packet_spec(pk: Packet, b: Seq<u8>, p: int) -> bool {
    &&& pk.header_type == b[p + 2]
    &&& pk.sub_channel_number == b[p + 3]
    &&& pk.num_chans_to_follow == le_u16(b, p + 4)
    &&& pk.num_bytes_this_record == le_u32(b, p + 10)
    &&& match pk.header {
        PacketType::Sonar(h) => b[p + 2] == 0 && h.raw@ == b.subrange(
            p + PACKET_HEADER_LEN,
            p + PACKET_HEADER_LEN + PING_HEADER_LEN,
        ) && match channel_walk(
            b,
            p + PACKET_HEADER_LEN + PING_HEADER_LEN,
            p + le_u32(b, p + 10),
            le_u16(b, p + 4) as nat,
        ) {
            Some((starts, _)) => h.channel_data@.len() == starts.len() && forall|c: int|
                0 <= c < starts.len() ==> #[trigger] channel_spec(h.channel_data@[c], b, starts[c]),
            None => false,
        },
        PacketType::Unknown => b[p + 2] != 0,
    }
}

/// Whether a channel record holds the header and samples at `c`.
pub open spec fn channel_spec(ch: PingChanHeader, b: Seq<u8>, c: int) -> bool {
    &&& ch.raw@ == b.subrange(c, c + CHAN_HEADER_LEN)
    &&& match ch.data {
        SonarData::U16(v) => v@ == u16_seq(b, c + CHAN_HEADER_LEN, num_samples_at(b, c)),
        _ => false,
    }
}

proof fn lemma_walk_bounds(b: Seq<u8>, q: int, end: int, k: nat)
    requires
        channel_walk(b, q, end, k) is Some,
        q <= end,
    ensures
        match channel_walk(b, q, end, k) {
            Some((starts, c)) => q <= c <= end && starts.len() == k && forall|i: int|
                0 <= i < starts.len() ==> q <= #[trigger] starts[i] && starts[i] + CHAN_HEADER_LEN <= end,
            None => false,
        },
    decreases k,
{
    if k > 0 {
        lemma_walk_bounds(b, q, end, (k - 1) as nat);
    }
}

proof fn lemma_walk_none(b: Seq<u8>, q: int, end: int, i: nat, k: nat)
    requires
        i < k,
        channel_walk(b, q, end, (i + 1) as nat) is None,
    ensures
        channel_walk(b, q, end, k) is None,
    decreases k - i,
{
    if k > i + 1 {
        lemma_walk_none(b, q, end, i, (k - 1) as nat);
    }
}

/// Decode the packet that starts at `pos`.
///
/// Returns `Ok(None)` when `pos` is the end of the stream, the packet and
/// the position right after it when one is there, and the error otherwise.
pub fn decode_packet(b: &[u8], pos: usize) -> (r: Result<Option<(Packet, usize)>, DecodeError>)
    requires
        pos <= b.len(),
    ensures
        pos == b.len() ==> r matches Ok(None),
        match packet_step(b@, pos as int) {
            FrameStep::End => r matches Ok(None),
            FrameStep::Fail(e) => match r {
                Err(e2) => e2 == e,
                _ => false,
            },
            FrameStep::Next(n) => match r {
                Ok(Some((pk, next))) => next == n && packet_spec(pk, b@, pos as int),
                _ => false,
            },
        },
{
    let n = b.len() - pos;
    if n == 0 {
        return Ok(None);
    }
    if n < 2 {
        return Err(DecodeError::Truncated { position: pos });
    }
    if !(b[pos] == 0xce && b[pos + 1] == 0xfa) {
        return Err(DecodeError::BadMagic { position: pos });
    }
    if n < PACKET_HEADER_LEN {
        return Err(DecodeError::Truncated { position: pos });
    }
    let header_type = b[pos + 2];
    let sub_channel_number = b[pos + 3];
    let num_chans = read_u16_le(b, pos + 4);
    let size32 = read_u32_le(b, pos + 10);
    if (size32 as u64) < PACKET_HEADER_LEN as u64 {
        return Err(DecodeError::BadSize { position: pos });
    }
    if (n as u64) < size32 as u64 {
        return Err(DecodeError::Truncated { position: pos });
    }
    let size = size32 as usize;
    let end = pos + size;
    let header = if header_type == 0 {
        if size < PACKET_HEADER_LEN + PING_HEADER_LEN {
            return Err(DecodeError::BadSize { position: pos });
        }
        let q = pos + PACKET_HEADER_LEN + PING_HEADER_LEN;
        let raw = copy_bytes(b, pos + PACKET_HEADER_LEN, PING_HEADER_LEN);
        let mut channels: Vec<PingChanHeader> = Vec::new();
        let mut c: usize = q;
        let mut i: u16 = 0;
        let ghost mut starts: Seq<int> = Seq::empty();
        while i < num_chans
            invariant
                q <= c <= end,
                end <= b.len(),
                pos + PACKET_HEADER_LEN + PING_HEADER_LEN == q,
                end == pos + size,
                size == le_u32(b@, pos + 10),
                num_chans == le_u16(b@, pos + 4),
                header_type == b@[pos + 2],
                header_type == 0,
                n == b.len() - pos,
                n >= size,
                b@[pos as int] == 0xce && b@[pos + 1] == 0xfa,
                i <= num_chans,
                channel_walk(b@, q as int, end as int, i as nat) == Some((starts, c as int)),
                channels@.len() == starts.len(),
                forall|k: int| 0 <= k < starts.len() ==> #[trigger] channel_spec(channels@[k], b@, starts[k]),
            decreases num_chans - i,
        {
            if end - c < CHAN_HEADER_LEN {
                proof {
                    assert(channel_walk(b@, q as int, end as int, (i + 1) as nat) is None);
                    lemma_walk_none(b@, q as int, end as int, i as nat, num_chans as nat);
                }
                return Err(DecodeError::BadSize { position: pos });
            }
            let ns = read_u32_le(b, c + 42);
            if ((end - c - CHAN_HEADER_LEN) / 2) < ns as usize {
                proof {
                    assert(c + CHAN_HEADER_LEN + 2 * ns > end);
                    assert(channel_walk(b@, q as int, end as int, (i + 1) as nat) is None);
                    lemma_walk_none(b@, q as int, end as int, i as nat, num_chans as nat);
                }
                return Err(DecodeError::BadSize { position: pos });
            }
            let ch_raw = copy_bytes(b, c, CHAN_HEADER_LEN);
            let samples = read_u16_seq(b, c + CHAN_HEADER_LEN, ns as usize);
            let ch = PingChanHeader { raw: ch_raw, data: SonarData::U16(samples) };
            proof {
                assert(channel_spec(ch, b@, c as int));
            }
            let ghost old_channels = channels@;
            channels.push(ch);
            proof {
                let s2 = starts.push(c as int);
                assert forall|k: int| 0 <= k < s2.len() implies #[trigger] channel_spec(channels@[k], b@, s2[k]) by {
                    if k < starts.len() {
                        assert(channels@[k] == old_channels[k]);
                    }
                }
                starts = s2;
            }
            c = c + CHAN_HEADER_LEN + 2 * (ns as usize);
            i = i + 1;
        }
        PacketType::Sonar(PingHeader { raw, channel_data: channels })
    } else {
        PacketType::Unknown
    };
    let pk = Packet {
        header_type,
        sub_channel_number,
        num_chans_to_follow: num_chans,
        num_bytes_this_record: size32,
        header,
    };
    Ok(Some((pk, end)))
}


impl PingHeader {
    pub open spec fn wf(&self) -> bool {
        self.raw@.len() == PING_HEADER_LEN
    }

    /// The year of the ping
    pub fn year(&self) -> (r: u16)
        requires
            self.wf(),
        ensures
            r == le_u16(self.raw@, 0),
    {
        read_u16_le(self.raw.as_slice(), 0)
    }

    /// The month, day, hour, minute, second and hundredths of a second of
    /// the ping
    pub fn time_of_year(&self) -> (r: (u8, u8, u8, u8, u8, u8))
        requires
            self.wf(),
        ensures
            r == (self.raw@[2], self.raw@[3], self.raw@[4], self.raw@[5], self.raw@[6], self.raw@[7]),
    {
        (self.raw[2], self.raw[3], self.raw[4], self.raw[5], self.raw[6], self.raw[7])
    }

    /// The ping number
    pub fn ping_number(&self) -> (r: u32)
        requires
            self.wf(),
        ensures
            r == le_u32(self.raw@, 14),
    {
        read_u32_le(self.raw.as_slice(), 14)
    }
}

impl PingChanHeader {
    pub open spec fn wf(&self) -> bool {
        self.raw@.len() == CHAN_HEADER_LEN
    }

    /// The channel number
    pub fn channel_number(&self) -> (r: u16)
        requires
            self.wf(),
        ensures
            r == le_u16(self.raw@, 0),
    {
        read_u16_le(self.raw.as_slice(), 0)
    }

    /// The frequency
    pub fn frequency(&self) -> (r: u16)
        requires
            self.wf(),
        ensures
            r == le_u16(self.raw@, 26),
    {
        read_u16_le(self.raw.as_slice(), 26)
    }

    /// The number of samples
    pub fn num_samples(&self) -> (r: u32)
        requires
            self.wf(),
        ensures
            r == le_u32(self.raw@, 42),
    {
        read_u32_le(self.raw.as_slice(), 42)
    }
}

/// The decoder of XTF packets
pub struct PacketDecoder;

impl FrameDecoder for PacketDecoder {
    type Frame = Packet;

    open spec fn step(b: Seq<u8>, p: int) -> FrameStep {
        packet_step(b, p)
    }

    fn decode(b: &[u8], pos: usize) -> (r: Result<Option<(Packet, usize)>, DecodeError>) {
        decode_packet(b, pos)
    }
}

/// The number of packets of a whole XTF file, after its file header, or the
/// first error.
pub open spec fn file_packet_count(b: Seq<u8>) -> Result<nat, DecodeError> {
    match file_header_spec(b) {
        Err(e) => Err(e),
        Ok(_) => frame_count::<PacketDecoder>(b, FILE_HEADER_LEN as int),
    }
}

/// Decode a whole XTF file and count its packets.
pub fn count_packets(b: &[u8]) -> (r: Result<usize, DecodeError>)
    ensures
        match file_packet_count(b@) {
            Ok(c) => r == Ok::<usize, DecodeError>(c as usize),
            Err(e) => r == Err::<usize, DecodeError>(e),
        },
{
    match decode_file_header(b) {
        Err(e) => Err(e),
        Ok(_) => count_frames::<PacketDecoder>(b, FILE_HEADER_LEN),
    }
}

/// A representation of an XTF file: its header and an iterator over its
/// packets
pub struct File {
    header: FileHeader,
    reader: Vec<u8>,
    pos: usize,
}

impl File {
    pub closed spec fn bytes(&self) -> Seq<u8> {
        self.reader@
    }

    pub closed spec fn position(&self) -> int {
        self.pos as int
    }

    pub closed spec fn wf(&self) -> bool {
        self.pos <= self.reader@.len()
    }

    pub closed spec fn header_bytes(&self) -> Seq<u8> {
        self.header.raw@
    }

    /// Read the file header from the given bytes; the packets follow it.
    pub fn new(reader: Vec<u8>) -> (r: Result<File, DecodeError>)
        ensures
            match file_header_spec(reader@) {
                Ok(raw) => match r {
                    Ok(f) => f.wf() && f.bytes() == reader@ && f.position() == FILE_HEADER_LEN
                        && f.header_bytes() == raw,
                    Err(_) => false,
                },
                Err(e) => r == Err::<File, DecodeError>(e),
            },
    {
        match decode_file_header(reader.as_slice()) {
            Ok(header) => Ok(File { header, reader, pos: FILE_HEADER_LEN }),
            Err(e) => Err(e),
        }
    }

    /// Return a reference to the file header
    pub fn header(&self) -> (r: &FileHeader)
        ensures
            r.raw@ == self.header_bytes(),
    {
        &self.header
    }

    /// The next packet: `None` at the end of the stream, the packet when
    /// one is there, and the error otherwise. After an error the stream is
    /// at its end, so iteration stops.
    pub fn next(&mut self) -> (r: Option<Result<Packet, DecodeError>>)
        requires
            old(self).wf(),
        ensures
            final(self).wf(),
            final(self).bytes() == old(self).bytes(),
            final(self).header_bytes() == old(self).header_bytes(),
            match packet_step(old(self).bytes(), old(self).position()) {
                FrameStep::End => r is None && final(self).position() == old(self).position(),
                FrameStep::Fail(e) => r == Some(Err::<Packet, DecodeError>(e)) && final(self).position()
                    == old(self).bytes().len(),
                FrameStep::Next(n) => match r {
                    Some(Ok(pk)) => final(self).position() == n && packet_spec(
                        pk,
                        old(self).bytes(),
                        old(self).position(),
                    ),
                    _ => false,
                },
            },
    {
        match decode_packet(self.reader.as_slice(), self.pos) {
            Ok(Some((pk, next))) => {
                self.pos = next;
                Some(Ok(pk))
            },
            Ok(None) => None,
            Err(e) => {
                self.pos = self.reader.len();
                Some(Err(e))
            },
        }
    }
}

} // verus!
