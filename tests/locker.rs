use sdw::jsf::{read_record, scan, PITCH_ROLL, SONAR_DATA};
use sdw::locker::{create_key, key_less, Index, Location, Locker, LockerError, LockerKey};
use sdw::model::{Channel, DecodeError, RecordKind, Timestamp};

fn frame(message_type: u16, channel: u8, payload: &[u8]) -> Vec<u8> {
    let mut v = vec![0x01, 0x16, 0x0b, 0x00];
    v.extend_from_slice(&message_type.to_le_bytes());
    v.extend_from_slice(&[0, 0, channel, 0, 0, 0]);
    v.extend_from_slice(&(payload.len() as i32).to_le_bytes());
    v.extend_from_slice(payload);
    v
}

fn ping(time: i32, channel: u8) -> Vec<u8> {
    let mut p = vec![0u8; 240];
    p[0..4].copy_from_slice(&time.to_le_bytes());
    p.extend_from_slice(&[1, 0, 2, 0]);
    frame(SONAR_DATA, channel, &p)
}

fn attitude(time: i32) -> Vec<u8> {
    let mut p = vec![0u8; 44];
    p[0..4].copy_from_slice(&time.to_le_bytes());
    frame(PITCH_ROLL, 0, &p)
}

/// A file of pings on both channels and attitude records, one each second
/// from `start`, and one unknown message.
fn file(start: i32, seconds: i32) -> Vec<u8> {
    let mut v = Vec::new();
    for t in start..start + seconds {
        v.extend(ping(t, 0));
        v.extend(ping(t, 1));
        v.extend(attitude(t));
    }
    v.extend(frame(1234, 0, &[0, 1]));
    v
}

fn key(kind: RecordKind, seconds: i64, channel: Channel) -> LockerKey {
    LockerKey { kind, timestamp: Timestamp { unix_millis: seconds * 1000 }, channel }
}

fn open(files: &[(&str, &Vec<u8>)]) -> Locker {
    let mut locker = Locker::new("survey".to_string());
    for (name, bytes) in files {
        locker.add_file(name.to_string(), &scan(bytes).unwrap());
    }
    locker
}

#[test]
fn iteration_counts_every_keyed_record() {
    let a = file(100, 10);
    let b = file(200, 5);
    let locker = open(&[("a.jsf", &a), ("b.jsf", &b)]);
    let mut it = locker.iter();
    assert_eq!(it.len(), 45);
    let mut n = 0;
    let mut previous: Option<LockerKey> = None;
    while let Some(e) = it.next() {
        if let Some(p) = previous {
            assert!(key_less(&p, &e.key));
        }
        previous = Some(e.key);
        n += 1;
    }
    assert_eq!(n, 45);
    assert_eq!(locker.index().len(), 45);
    assert_eq!(locker.path(), "survey");
}

#[test]
fn get_round_trips_every_key() {
    let a = file(100, 4);
    let b = file(50, 3);
    let files = [a, b];
    let locker = open(&[("a.jsf", &files[0]), ("b.jsf", &files[1])]);
    for e in locker.index().entries() {
        let l = locker.locate(&e.key).unwrap();
        assert_eq!(l, e.location);
        let bytes = &files[l.file];
        let start = l.offset as usize;
        let size = i32::from_le_bytes(bytes[start + 12..start + 16].try_into().unwrap()) as usize;
        let rec = read_record(&bytes[start..start + 16 + size]).unwrap();
        assert_eq!(create_key(rec), Some(e.key));
    }
    assert_eq!(locker.file_path(1).map(|s| s.as_str()), Some("b.jsf"));
    assert_eq!(locker.file_path(2), None);
}

#[test]
fn missing_key_is_an_error() {
    let a = file(100, 2);
    let locker = open(&[("a.jsf", &a)]);
    let absent = key(RecordKind::Course, 100, Channel::Other);
    assert_eq!(locker.locate(&absent), Err(LockerError::KeyNotFound));
}

#[test]
fn time_range_holds_both_channels() {
    let a = file(100, 10);
    let locker = open(&[("a.jsf", &a)]);
    let lo = key(RecordKind::Ping, 103, Channel::Port);
    let hi = key(RecordKind::Ping, 106, Channel::Port);
    let r = locker.range(&lo, &hi);
    assert_eq!(r.len(), 6);
    for e in &r {
        assert_eq!(e.key.kind, RecordKind::Ping);
        assert!(e.key.timestamp.unix_millis >= 103_000 && e.key.timestamp.unix_millis < 106_000);
    }
    assert_eq!(r[0].key.channel, Channel::Port);
    assert_eq!(r[1].key.channel, Channel::Starboard);
    assert_eq!(r[0].key.timestamp, r[1].key.timestamp);
    let attitudes = locker.range(
        &key(RecordKind::Orientation, 0, Channel::Port),
        &key(RecordKind::Orientation, 1_000, Channel::Other),
    );
    assert_eq!(attitudes.len(), 10);
    assert!(locker.range(&hi, &lo).is_empty());
}

#[test]
fn opening_twice_in_any_order_gives_the_same_keys() {
    let a = file(100, 6);
    let b = file(103, 6);
    let first = open(&[("a.jsf", &a), ("b.jsf", &b)]);
    let second = open(&[("b.jsf", &b), ("a.jsf", &a)]);
    let k1: Vec<LockerKey> = first.index().entries().iter().map(|e| e.key).collect();
    let k2: Vec<LockerKey> = second.index().entries().iter().map(|e| e.key).collect();
    assert_eq!(k1, k2);
    assert_eq!(k1.len(), 27);
}

#[test]
fn insert_keeps_the_last_location() {
    let mut index = Index::new();
    let k = key(RecordKind::Ping, 5, Channel::Port);
    index.insert(k, Location { file: 0, offset: 10 });
    index.insert(key(RecordKind::Course, 9, Channel::Other), Location { file: 0, offset: 0 });
    index.insert(k, Location { file: 1, offset: 20 });
    assert_eq!(index.len(), 2);
    assert_eq!(index.get(&k), Some(Location { file: 1, offset: 20 }));
    assert_eq!(index.entries()[0].key.kind, RecordKind::Course);
}

#[test]
fn key_order_is_kind_then_time_then_channel() {
    let a = key(RecordKind::Orientation, 50, Channel::Other);
    let b = key(RecordKind::Ping, 10, Channel::Starboard);
    let c = key(RecordKind::Ping, 11, Channel::Port);
    let d = key(RecordKind::Ping, 11, Channel::Starboard);
    assert!(key_less(&a, &b));
    assert!(key_less(&b, &c));
    assert!(key_less(&c, &d));
    assert!(!key_less(&d, &c));
    assert!(!key_less(&c, &c));
    assert_eq!(RecordKind::Orientation.name(), "Orientation");
}

#[test]
fn building_reports_the_first_failed_file() {
    let a = file(100, 2);
    let mut broken = file(300, 2);
    broken[0] = 0;
    let names = vec!["a.jsf".to_string(), "b.jsf".to_string(), "c.jsf".to_string()];
    let scans = vec![scan(&a), scan(&broken), Err(DecodeError::Truncated { position: 7 })];
    match Locker::from_scans("survey".to_string(), &names, &scans) {
        Err((i, e)) => {
            assert_eq!(i, 1);
            assert_eq!(e, DecodeError::BadMagic { position: 0 });
        }
        Ok(_) => panic!("expected a failure"),
    }
    let good = vec![scan(&a), scan(&file(300, 3))];
    let locker = Locker::from_scans("survey".to_string(), &names[..2].to_vec(), &good).unwrap();
    assert_eq!(locker.index().len(), 15);
    assert_eq!(locker.file_path(0).map(|s| s.as_str()), Some("a.jsf"));
}

#[test]
fn upper_bound_on_the_last_channel_takes_in_its_instant() {
    let a = file(100, 10);
    let locker = open(&[("a.jsf", &a)]);
    let lo = key(RecordKind::Ping, 103, Channel::Port);
    let hi = key(RecordKind::Ping, 106, Channel::Other);
    let r = locker.range(&lo, &hi);
    assert_eq!(r.len(), 8);
    assert_eq!(r[7].key.timestamp.unix_millis, 106_000);
    assert_eq!(r[7].key.channel, Channel::Starboard);
}

#[test]
fn a_key_in_two_files_takes_the_later_file() {
    let a = file(100, 2);
    let b = file(101, 2);
    let names = vec!["a.jsf".to_string(), "b.jsf".to_string()];
    let scans = vec![scan(&a), scan(&b)];
    let locker = Locker::from_scans("survey".to_string(), &names, &scans).unwrap();
    assert_eq!(locker.index().len(), 9);
    let shared = key(RecordKind::Ping, 101, Channel::Starboard);
    assert_eq!(locker.locate(&shared).unwrap().file, 1);
    let only_first = key(RecordKind::Ping, 100, Channel::Starboard);
    assert_eq!(locker.locate(&only_first).unwrap().file, 0);
}
