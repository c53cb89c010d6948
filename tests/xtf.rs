use sdw::model::DecodeError;
use sdw::xtf::{count_packets, decode_file_header, decode_packet, PacketType, SonarData};

fn file_header(channels: u16) -> Vec<u8> {
    let mut v = vec![0u8; 1024];
    v[0] = 0x7b;
    v[1] = 7;
    v[2..9].copy_from_slice(b"Isis Xt");
    v[166..168].copy_from_slice(&channels.to_le_bytes());
    v
}

fn packet(header_type: u8, num_chans: u16, payload: &[u8]) -> Vec<u8> {
    let mut v = vec![0xce, 0xfa, header_type, 0];
    v.extend_from_slice(&num_chans.to_le_bytes());
    v.extend_from_slice(&[0, 0, 0, 0]);
    v.extend_from_slice(&((14 + payload.len()) as u32).to_le_bytes());
    v.extend_from_slice(payload);
    v
}

fn sonar(samples: &[&[u16]]) -> Vec<u8> {
    let mut p = vec![0u8; 242];
    p[0..2].copy_from_slice(&2015u16.to_le_bytes());
    p[2] = 5;
    p[3] = 28;
    p[14..18].copy_from_slice(&77u32.to_le_bytes());
    for (c, s) in samples.iter().enumerate() {
        let mut h = vec![0u8; 64];
        h[0..2].copy_from_slice(&(c as u16).to_le_bytes());
        h[26..28].copy_from_slice(&400u16.to_le_bytes());
        h[42..46].copy_from_slice(&(s.len() as u32).to_le_bytes());
        p.extend(h);
        for x in s.iter() {
            p.extend_from_slice(&x.to_le_bytes());
        }
    }
    packet(0, samples.len() as u16, &p)
}

#[test]
fn xtf_read_file() {
    let mut f = file_header(2);
    for i in 0..26802u32 {
        if i % 10 == 0 {
            f.extend(sonar(&[&[1, 2, 3], &[4, 5, 6]]));
        } else {
            f.extend(packet(3, 0, &i.to_le_bytes()));
        }
    }
    assert_eq!(26802, count_packets(&f).unwrap());
}

#[test]
fn file_header_fields() {
    let mut bytes = file_header(2);
    bytes[256 + 128] = 3;
    bytes[256 + 128 + 6] = 2;
    let h = decode_file_header(&bytes).unwrap();
    assert_eq!(h.chan_info(1).type_of_channel(), 3);
    assert_eq!(h.chan_info(1).bytes_per_sample(), 2);
    assert_eq!(h.chan_info(0).sub_channel_number(), 0);
    assert_eq!(h.system_type(), 7);
    assert_eq!(h.number_of_sonar_channels(), 2);
    assert_eq!(h.number_of_bathy_channels(), 0);
    let mut bad = file_header(2);
    bad[40] = 0xff;
    assert_eq!(decode_file_header(&bad).err(), Some(DecodeError::BadText { position: 0 }));
    let mut bad_name = file_header(2);
    bad_name[256 + 12] = 0xc3;
    assert_eq!(decode_file_header(&bad_name).err(), Some(DecodeError::BadText { position: 0 }));
    assert_eq!(decode_file_header(&[0x7a]).err(), Some(DecodeError::BadMagic { position: 0 }));
    assert_eq!(decode_file_header(&[0x7b, 0]).err(), Some(DecodeError::Truncated { position: 0 }));
}

#[test]
fn header_only_file_has_no_packets() {
    let f = file_header(0);
    assert_eq!(count_packets(&f), Ok(0));
    assert!(matches!(decode_packet(&f, 1024), Ok(None)));
}

#[test]
fn sonar_packet_channels() {
    let p = sonar(&[&[10, 20], &[30, 40, 50]]);
    let (pk, next) = decode_packet(&p, 0).unwrap().unwrap();
    assert_eq!(next, p.len());
    assert_eq!(pk.packet_name(), "Sonar");
    assert_eq!(pk.num_chans_to_follow, 2);
    match &pk.header {
        PacketType::Sonar(h) => {
            assert_eq!(h.year(), 2015);
            assert_eq!(h.ping_number(), 77);
            assert_eq!(h.time_of_year().0, 5);
            assert_eq!(h.channel_data.len(), 2);
            assert_eq!(h.channel_data[1].channel_number(), 1);
            assert_eq!(h.channel_data[1].frequency(), 400);
            assert_eq!(h.channel_data[1].num_samples(), 3);
            match &h.channel_data[1].data {
                SonarData::U16(v) => assert_eq!(v, &vec![30u16, 40, 50]),
                _ => panic!("expected 16-bit samples"),
            }
        }
        PacketType::Unknown => panic!("expected a sonar packet"),
    }
    let other = packet(9, 0, &[1, 2, 3]);
    let (pk, _) = decode_packet(&other, 0).unwrap().unwrap();
    assert_eq!(pk.packet_name(), "Unknown");
}

#[test]
fn packet_errors() {
    let mut small = packet(3, 0, &[]);
    small[10] = 4;
    assert_eq!(decode_packet(&small, 0).err(), Some(DecodeError::BadSize { position: 0 }));
    let mut overflowing = sonar(&[&[1, 2]]);
    let at = 14 + 242 + 42;
    overflowing[at..at + 4].copy_from_slice(&100u32.to_le_bytes());
    assert_eq!(decode_packet(&overflowing, 0).err(), Some(DecodeError::BadSize { position: 0 }));
    let good = packet(3, 0, &[1, 2, 3]);
    assert_eq!(decode_packet(&good[..8], 0).err(), Some(DecodeError::Truncated { position: 0 }));
    assert_eq!(decode_packet(&good[..15], 0).err(), Some(DecodeError::Truncated { position: 0 }));
    let mut bad_magic = good.clone();
    bad_magic[1] = 0;
    assert_eq!(decode_packet(&bad_magic, 0).err(), Some(DecodeError::BadMagic { position: 0 }));
}
