use fortune_index::data_file::DataFile;
use fortune_index::header::{DecodeError, Header};
use fortune_index::Flags;

fn sample_header() -> Header {
    let flags = Flags { random: true, ordered: false, rotated: true };
    Header::new(2, 3, 40, 7, flags, '%')
}

#[test]
fn header_bytes_layout() {
    let bytes = sample_header().to_bytes();
    assert_eq!(
        bytes,
        vec![0, 0, 0, 2, 0, 0, 0, 3, 0, 0, 0, 40, 0, 0, 0, 7, 0, 0, 0, 5, b'%', 0, 0, 0]
    );
}

#[test]
fn header_round_trip() {
    let h = sample_header();
    let bytes = h.to_bytes();
    assert_eq!(Header::from_bytes(&bytes), Ok(Some(h)));
}

#[test]
fn data_file_round_trip() {
    let d = DataFile { header: sample_header(), offsets: vec![0, 3, 6, 9] };
    let bytes = d.to_bytes();
    assert_eq!(bytes.len(), 24 + 16);
    assert_eq!(&bytes[24..], &[0, 0, 0, 0, 0, 0, 0, 3, 0, 0, 0, 6, 0, 0, 0, 9]);
    let back = DataFile::from_bytes(&bytes).unwrap().unwrap();
    assert_eq!(back.header, d.header);
    assert_eq!(back.offsets, d.offsets);
}

#[test]
fn other_version_is_skipped() {
    let mut h = sample_header();
    h.version = 1;
    let d = DataFile { header: h, offsets: vec![0, 3, 6, 9] };
    assert!(matches!(DataFile::from_bytes(&d.to_bytes()), Ok(None)));
}

#[test]
fn zero_count_is_skipped() {
    let mut h = sample_header();
    h.set_count(0);
    let d = DataFile { header: h, offsets: vec![0] };
    assert!(matches!(DataFile::from_bytes(&d.to_bytes()), Ok(None)));
}

#[test]
fn truncated_table_is_an_error() {
    let d = DataFile { header: sample_header(), offsets: vec![0, 3, 6, 9] };
    let bytes = d.to_bytes();
    assert!(matches!(DataFile::from_bytes(&bytes[..bytes.len() - 1]), Err(DecodeError::Truncated)));
    assert!(matches!(DataFile::from_bytes(&bytes[..2]), Err(DecodeError::Truncated)));
    assert!(matches!(DataFile::from_bytes(&bytes[..20]), Err(DecodeError::Truncated)));
}

#[test]
fn unknown_flag_bits_read_as_none() {
    let mut bytes = sample_header().to_bytes();
    bytes[19] = 0x0d;
    let h = Header::from_bytes(&bytes).unwrap().unwrap();
    assert_eq!(*h.flags(), Flags::empty());
}

#[test]
fn flags_pack_and_unpack() {
    let f = Flags { random: false, ordered: true, rotated: true };
    assert_eq!(f.bits(), 6);
    assert_eq!(Flags::from_bits(6), Some(f));
    assert_eq!(Flags::from_bits(8), None);
    assert_eq!(f.names(), vec!["Ordered", "Rotated"]);
    assert!(Flags::empty().names().is_empty());
}

#[test]
fn header_setters() {
    let mut h = Header::default_header();
    assert_eq!(h.version(), 2);
    assert_eq!(h.separator(), '%');
    h.set_longest(9);
    h.set_shortest(1);
    h.set_separator('#');
    h.set_is_random();
    h.set_is_rotated();
    assert_eq!(h.longest(), 9);
    assert_eq!(h.shortest(), 1);
    assert_eq!(h.separator(), '#');
    assert!(h.is_random() && !h.is_ordered() && h.is_rotated());
    h.set_is_ordered();
    assert!(h.is_ordered());
    h.set_flags(Flags::empty());
    assert!(!h.is_random());
}

#[test]
fn defaults() {
    assert_eq!(Header::default(), Header::default_header());
    assert_eq!(Flags::default(), Flags::empty());
    assert_eq!(Header::default().count(), 0);
}
