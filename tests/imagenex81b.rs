use sdw::imagenex81b::{count_shots, decode_shot, parse_datetime, CivilDateTime};
use sdw::model::{Channel, DecodeError, Quantity, Scaled, SonarDataRecord};

fn shot(date: &str, time: &str, hundredths: &str, echo: usize, ix: u8) -> Vec<u8> {
    let mut v = vec![0u8; 112];
    v[0..3].copy_from_slice(b"81B");
    v[8..8 + date.len()].copy_from_slice(date.as_bytes());
    v[20..20 + time.len()].copy_from_slice(time.as_bytes());
    v[29..29 + hundredths.len()].copy_from_slice(hundredths.as_bytes());
    v[80..82].copy_from_slice(&675u16.to_be_bytes());
    v[100] = b'I';
    v[101] = ix;
    v[102] = b'X';
    v[110] = (echo & 0x7f) as u8;
    v[111] = (echo >> 7) as u8;
    for i in 0..echo {
        v.push((i % 251) as u8);
    }
    v.push(0xfc);
    let pad = if ix == 0x4d { 19 } else { 63 };
    v.extend(vec![0u8; pad]);
    v
}

#[test]
fn imagenex81b_read_file() {
    let mut stream = Vec::new();
    for i in 0..340 {
        let ix = if i % 2 == 0 { 0x4d } else { 0x4c };
        stream.extend(shot("05-MAR-2021", "12:34:56", "", i % 300, ix));
    }
    assert_eq!(340, count_shots(&stream).unwrap());
}

#[test]
fn shot_becomes_a_timed_ping() {
    let s = shot("05-MAR-2021", "12:34:56", "", 500, 0x4d);
    assert_eq!(s.len(), 112 + 500 + 1 + 19);
    let (shot, next) = decode_shot(&s, 0).unwrap().unwrap();
    assert_eq!(next, s.len());
    assert_eq!(shot.echo_data.len(), 500);
    assert_eq!(shot.dd, b"05-MAR-2021".to_vec());
    assert_eq!(shot.timestamp().unwrap().unix_millis, 1_614_947_696_000);
    match shot.into_record().unwrap() {
        SonarDataRecord::Ping(p) => {
            assert_eq!(p.channel, Channel::Other);
            assert_eq!(p.data.len(), 500);
            assert_eq!(p.data[3], 3);
            assert_eq!(
                p.frequency,
                Quantity::Fixed(Scaled { raw: 675, numerator: 1000, denominator: 1 })
            );
            assert_eq!(p.timestamp.unix_millis, 1_614_947_696_000);
        }
        _ => panic!("expected a ping"),
    }
}

#[test]
fn shot_dates() {
    let decode = |d: &str, t: &str, h: &str| {
        let s = shot(d, t, h, 0, 0x4d);
        decode_shot(&s, 0).unwrap().unwrap().0.timestamp().map(|t| t.unix_millis)
    };
    assert_eq!(decode("31-dec-1999", "23:59:59", ""), Some(946_684_799_000));
    assert_eq!(decode("29-Feb-2020", "00:00:00", ""), Some(1_582_934_400_000));
    assert_eq!(decode("29-FEB-2021", "00:00:00", ""), None);
    assert_eq!(decode("05-MAR-2021", "24:00:00", ""), None);
    assert_eq!(decode("05-XYZ-2021", "12:00:00", ""), None);
    assert_eq!(decode("05-MAR-2021", "12:34:56", ".78"), None);
}

#[test]
fn datetime_text() {
    let text = b"05-Mar-202112:34:56".to_vec();
    assert_eq!(
        parse_datetime(&text),
        Some(CivilDateTime { year: 2021, month: 3, day: 5, hour: 12, minute: 34, second: 56 })
    );
    assert_eq!(parse_datetime(&b"05-Mar-2021 12:34:56".to_vec()), None);
}

#[test]
fn shot_errors() {
    let good = shot("05-MAR-2021", "12:34:56", "", 10, 0x4c);
    let mut bad_end = good.clone();
    bad_end[112 + 10] = 0;
    assert_eq!(decode_shot(&bad_end, 0).err(), Some(DecodeError::BadTerminator { position: 0 }));
    let mut bad_mark = good.clone();
    bad_mark[100] = b'J';
    assert_eq!(decode_shot(&bad_mark, 0).err(), Some(DecodeError::BadMagic { position: 0 }));
    let mut bad_magic = good.clone();
    bad_magic[0] = b'9';
    assert_eq!(decode_shot(&bad_magic, 0).err(), Some(DecodeError::BadMagic { position: 0 }));
    assert_eq!(
        decode_shot(&good[..good.len() - 1], 0).err(),
        Some(DecodeError::Truncated { position: 0 })
    );
    let empty: Vec<u8> = Vec::new();
    assert!(matches!(decode_shot(&empty, 0), Ok(None)));
    assert_eq!(count_shots(&empty), Ok(0));
}
