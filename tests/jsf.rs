use sdw::jsf::{
    count_records, decode_message, message_header, read_record, scan, MessageType, PITCH_ROLL,
    SONAR_DATA,
};
use sdw::locker::create_key;
use sdw::model::{Channel, DecodeError, Quantity, RecordKind, Scaled, SonarDataRecord};

fn frame(message_type: u16, channel: u8, payload: &[u8]) -> Vec<u8> {
    let mut v = vec![0x01, 0x16, 0x0b, 0x00];
    v.extend_from_slice(&message_type.to_le_bytes());
    v.extend_from_slice(&[0, 0, channel, 0, 0, 0]);
    v.extend_from_slice(&(payload.len() as i32).to_le_bytes());
    v.extend_from_slice(payload);
    v
}

fn sonar_payload(time: i32, ms_today: u32, samples: &[u16]) -> Vec<u8> {
    let mut p = vec![0u8; 240];
    p[0..4].copy_from_slice(&time.to_le_bytes());
    p[116..120].copy_from_slice(&20_000u32.to_le_bytes());
    p[152..156].copy_from_slice(&100_000.0f32.to_bits().to_le_bytes());
    p[200..204].copy_from_slice(&ms_today.to_le_bytes());
    for s in samples {
        p.extend_from_slice(&s.to_le_bytes());
    }
    p
}

fn pitch_roll_payload(time: i32, ms: i32, pitch: i16, heading: u16, flags: i32) -> Vec<u8> {
    let mut p = vec![0u8; 44];
    p[0..4].copy_from_slice(&time.to_le_bytes());
    p[4..8].copy_from_slice(&ms.to_le_bytes());
    p[24..26].copy_from_slice(&pitch.to_le_bytes());
    p[26..28].copy_from_slice(&(-pitch).to_le_bytes());
    p[34..36].copy_from_slice(&heading.to_le_bytes());
    p[36..40].copy_from_slice(&flags.to_le_bytes());
    p
}

#[test]
fn read_xtf() {
    let mut stream = Vec::new();
    for i in 0..905 {
        if i % 3 == 0 {
            stream.extend(frame(SONAR_DATA, (i % 2) as u8, &sonar_payload(i, 0, &[1, 2])));
        } else if i % 3 == 1 {
            stream.extend(frame(PITCH_ROLL, 0, &pitch_roll_payload(i, 0, 0, 0, 0)));
        } else {
            stream.extend(frame(9999, 0, &[7, 7, 7]));
        }
    }
    let counts = count_records(&stream).unwrap();
    let total = counts.ping + counts.position + counts.orientation + counts.course + counts.unknown;
    assert_eq!(905, total);
    assert_eq!(302, counts.ping);
    assert_eq!(302, counts.orientation);
    assert_eq!(301, counts.unknown);
}

#[test]
fn message_test() {
    let mut data = frame(182, 0, &[0u8; 24]);
    data[12..16].copy_from_slice(&13424i32.to_le_bytes());
    let res = message_header(&data).unwrap();
    assert_eq!(res.message_size, 13424);
    assert_eq!(res.message_type, 182);
    assert_eq!(res.protocol, 0x0b);
}

#[test]
fn empty_stream_ends_cleanly() {
    let empty: Vec<u8> = Vec::new();
    assert!(matches!(decode_message(&empty, 0), Ok(None)));
    let counts = count_records(&empty).unwrap();
    assert_eq!(counts.ping + counts.orientation + counts.unknown, 0);
    assert_eq!(scan(&empty).unwrap().entries.len(), 0);
}

#[test]
fn stream_end_after_last_frame_is_clean() {
    let f = frame(SONAR_DATA, 0, &sonar_payload(10, 5, &[]));
    let (_, next) = decode_message(&f, 0).unwrap().unwrap();
    assert_eq!(next, f.len());
    assert!(matches!(decode_message(&f, next), Ok(None)));
}

#[test]
fn sonar_message_becomes_a_ping() {
    let f = frame(SONAR_DATA, 1, &sonar_payload(1_600_000_000, 86_399_123, &[10, 20, 30]));
    let (m, next) = decode_message(&f, 0).unwrap().unwrap();
    assert_eq!(next, 16 + 240 + 6);
    match &m.data {
        MessageType::SonarData(x) => {
            assert_eq!(x.trace(), &vec![10u16, 20, 30]);
            assert_eq!(x.timestamp().unix_millis, 1_600_000_000_123);
            assert_eq!(
                x.sampling_interval(),
                Scaled { raw: 20_000, numerator: 1, denominator: 1_000_000_000 }
            );
        }
        _ => panic!("expected sonar data"),
    }
    match m.into_record() {
        SonarDataRecord::Ping(p) => {
            assert_eq!(p.channel, Channel::Starboard);
            assert_eq!(p.source, "unknown");
            assert_eq!(p.data, vec![10u16, 20, 30]);
            assert_eq!(p.frequency, Quantity::Float32Bits(100_000.0f32.to_bits()));
            assert_eq!(p.timestamp.unix_millis, 1_600_000_000_123);
        }
        _ => panic!("expected a ping"),
    }
}

#[test]
fn odd_trailing_byte_is_skipped_with_the_frame() {
    let mut payload = sonar_payload(1, 0, &[5, 6]);
    payload.push(0xff);
    let mut f = frame(SONAR_DATA, 0, &payload);
    f.extend(frame(9999, 0, &[]));
    let (m, next) = decode_message(&f, 0).unwrap().unwrap();
    assert_eq!(next, 16 + 245);
    match m.data {
        MessageType::SonarData(x) => assert_eq!(x.trace.len(), 2),
        _ => panic!("expected sonar data"),
    }
    assert!(matches!(decode_message(&f, next), Ok(Some(_))));
}

#[test]
fn pitch_roll_fields_follow_the_validity_bits() {
    let flags = 0x40 | 0x200;
    let f = frame(PITCH_ROLL, 3, &pitch_roll_payload(100, -1250, 8192, 9000, flags));
    let (m, _) = decode_message(&f, 0).unwrap().unwrap();
    match &m.data {
        MessageType::PitchRoll(x) => {
            assert!(x.is_pitch_valid());
            assert!(!x.is_roll_valid());
            assert!(x.is_heading_valid());
            assert!(!x.is_acceleration_x_valid());
            assert_eq!(x.pitch(), Some(Scaled { raw: 8192, numerator: 180, denominator: 32768 }));
            assert_eq!(x.roll(), None);
            assert_eq!(x.heading(), Some(Scaled { raw: 9000, numerator: 1, denominator: 100 }));
            assert_eq!(x.acceleration(), None);
            assert_eq!(x.device_info(), None);
            assert_eq!(x.timestamp().unix_millis, 100_000 - 250);
        }
        _ => panic!("expected pitch-roll data"),
    }
    let key = create_key(m.into_record()).unwrap();
    assert_eq!(key.kind, RecordKind::Orientation);
    assert_eq!(key.channel, Channel::Other);
}

#[test]
fn all_validity_bits() {
    let f = frame(PITCH_ROLL, 0, &pitch_roll_payload(0, 0, 1, 2, 0x1fff));
    let (m, _) = decode_message(&f, 0).unwrap().unwrap();
    match &m.data {
        MessageType::PitchRoll(x) => {
            assert!(x.acceleration().is_some());
            assert!(x.gyro_rate().is_some());
            assert!(x.temperature().is_some());
            assert!(x.heave().is_some());
            assert!(x.yaw().is_some());
            assert_eq!(x.device_info(), Some(0));
        }
        _ => panic!("expected pitch-roll data"),
    }
}

#[test]
fn unknown_type_is_not_an_error() {
    let f = frame(4242, 0, &[1, 2, 3, 4, 5]);
    let (m, next) = decode_message(&f, 0).unwrap().unwrap();
    assert_eq!(next, f.len());
    match &m.data {
        MessageType::Unknown(u) => assert_eq!(u.data, vec![1, 2, 3, 4, 5]),
        _ => panic!("expected an unknown message"),
    }
    assert!(matches!(m.into_record(), SonarDataRecord::Unknown));
}

#[test]
fn decode_errors() {
    let good = frame(SONAR_DATA, 0, &sonar_payload(1, 1, &[1]));
    let mut bad_magic = good.clone();
    bad_magic[0] = 0x02;
    assert_eq!(decode_message(&bad_magic, 0).err(), Some(DecodeError::BadMagic { position: 0 }));
    assert_eq!(decode_message(&good[..10], 0).err(), Some(DecodeError::Truncated { position: 0 }));
    assert_eq!(decode_message(&good[..100], 0).err(), Some(DecodeError::Truncated { position: 0 }));
    let short_sonar = frame(SONAR_DATA, 0, &[0u8; 100]);
    assert_eq!(decode_message(&short_sonar, 0).err(), Some(DecodeError::BadSize { position: 0 }));
    let mut negative = frame(9999, 0, &[]);
    negative[12..16].copy_from_slice(&(-4i32).to_le_bytes());
    assert_eq!(decode_message(&negative, 0).err(), Some(DecodeError::BadSize { position: 0 }));
    let mut two = good.clone();
    two.extend_from_slice(&[0x01]);
    assert_eq!(count_records(&two).err(), Some(DecodeError::Truncated { position: good.len() }));
}

#[test]
fn scan_keys_every_ping_and_orientation() {
    let mut stream = frame(SONAR_DATA, 0, &sonar_payload(5, 1, &[]));
    let second = stream.len();
    stream.extend(frame(9999, 0, &[1]));
    let third = stream.len();
    stream.extend(frame(PITCH_ROLL, 0, &pitch_roll_payload(6, 2, 0, 0, 0)));
    let s = scan(&stream).unwrap();
    assert_eq!(s.entries.len(), 2);
    assert_eq!(s.entries[0].offset, 0);
    assert_eq!(s.entries[0].key.kind, RecordKind::Ping);
    assert_eq!(s.entries[0].key.channel, Channel::Port);
    assert_eq!(s.entries[0].key.timestamp.unix_millis, 5001);
    assert_eq!(s.entries[1].offset, third as u64);
    assert_eq!(s.entries[1].key.kind, RecordKind::Orientation);
    let rec = read_record(&stream[second..third]).unwrap();
    assert!(create_key(rec).is_none());
}
