use sdw::jsf::{decode_message, File, SONAR_DATA};
use sdw::model::{
    kind_name, Channel, DecodeError, Orientation, Ping, Quantity, Scaled, SonarDataRecord, Timestamp,
};
use sdw::summary::Summary;

fn ping(t: i64, channel: Channel, len: usize, interval: i64) -> SonarDataRecord<u16> {
    SonarDataRecord::Ping(Ping::new(
        "unknown".to_string(),
        Timestamp { unix_millis: t },
        Quantity::Float32Bits(0),
        Scaled { raw: interval, numerator: 1, denominator: 1_000_000_000 },
        channel,
        vec![0u16; len],
    ))
}

#[test]
fn summary_counts_channels_and_spans_time() {
    let mut s = Summary::new(Timestamp { unix_millis: 9_000 });
    s.add(&ping(5_000, Channel::Port, 10, 20));
    s.add(&ping(6_000, Channel::Starboard, 10, 20));
    s.add(&ping(7_000, Channel::Port, 12, 40));
    let o = Orientation::new("unknown".to_string(), Timestamp { unix_millis: 8_000 }, None, None, None);
    s.add(&SonarDataRecord::<u16>::Orientation(o));
    s.add(&SonarDataRecord::<u16>::Unknown);
    assert_eq!((s.port, s.starboard, s.other), (2, 1, 0));
    assert_eq!(s.start.unix_millis, 5_000);
    assert_eq!(s.end.unix_millis, 8_000);
    assert_eq!(s.data_lengths, vec![10, 12]);
    assert_eq!(s.sampling_intervals.len(), 2);
}

#[test]
fn record_kind_names() {
    assert_eq!(kind_name(&ping(0, Channel::Other, 0, 0)), "Ping");
    assert_eq!(kind_name(&SonarDataRecord::<u8>::Unknown), "Unknown");
}

fn frame(message_type: u16, payload: &[u8]) -> Vec<u8> {
    let mut v = vec![0x01, 0x16, 0x0b, 0x00];
    v.extend_from_slice(&message_type.to_le_bytes());
    v.extend_from_slice(&[0, 0, 0, 0, 0, 0]);
    v.extend_from_slice(&(payload.len() as i32).to_le_bytes());
    v.extend_from_slice(payload);
    v
}

#[test]
fn file_iterates_and_stops_after_an_error() {
    let mut bytes = frame(SONAR_DATA, &[0u8; 242]);
    bytes.extend(frame(77, &[1, 2]));
    bytes.extend_from_slice(&[9, 9, 9]);
    let mut f = File::open(bytes.clone()).unwrap();
    assert_eq!(f.stream_position(), 0);
    assert!(matches!(f.next(), Some(Ok(_))));
    assert_eq!(f.stream_position(), 16 + 242);
    assert!(matches!(f.next(), Some(Ok(_))));
    let at = bytes.len() - 3;
    assert_eq!(f.stream_position(), at as u64);
    assert!(matches!(f.next(), Some(Err(DecodeError::BadMagic { position })) if position == at));
    assert!(f.next().is_none());
    assert!(File::open(Vec::new()).is_err());
    assert!(matches!(decode_message(&bytes, at), Err(DecodeError::BadMagic { .. })));
}
