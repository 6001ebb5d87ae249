use md5::Digest;
use netfetch::series::{
    candidate_from_digest, existing_from_rows, ChannelStatusSeriesId, Existence, SeriesId,
    SeriesRegistration,
};
use netfetch::types::{ByteOrder, ChannelDesc, ScalarType, Shape};

fn desc(name: &str, t: ScalarType, s: Shape) -> ChannelDesc {
    ChannelDesc { name: name.to_string(), scalar_type: t, shape: s, byte_order: ByteOrder::LE }
}

fn expected_candidate(seed: &[u8]) -> Option<u64> {
    let d = md5::Md5::digest(seed);
    let mut b = [0u8; 8];
    b.copy_from_slice(&d[0..8]);
    let v = u64::from_le_bytes(b);
    if v == 0 || v > i64::MAX as u64 {
        None
    } else {
        Some(v)
    }
}

#[test]
fn candidate_from_digest_rules() {
    let mut d = [0u8; 16];
    assert_eq!(candidate_from_digest(&d), None);
    d[0] = 1;
    assert_eq!(candidate_from_digest(&d), Some(1));
    d[7] = 0x80;
    assert_eq!(candidate_from_digest(&d), None);
    let max = (i64::MAX as u64).to_le_bytes();
    assert_eq!(candidate_from_digest(&max), Some(i64::MAX as u64));
    let mixed = [0x10, 0x32, 0x54, 0x76, 0x98, 0xba, 0xdc, 0x0e, 0xff];
    assert_eq!(candidate_from_digest(&mixed), Some(0x0edc_ba98_7654_3210));
}

#[test]
fn registration_hashes_seed_and_nonce() {
    let mut reg = SeriesRegistration::new("sf", &desc("X", ScalarType::U16, Shape::Scalar));
    let c = reg.next_candidate(0);
    assert_eq!(c, expected_candidate(b"sfX5[]\0\0\0\0"));
    let c2 = reg.next_candidate(0x0403_0201);
    assert_eq!(c2, expected_candidate(b"sfX5[]\0\0\0\0\x01\x02\x03\x04"));
}

#[test]
fn registration_seed_spells_shape() {
    let mut reg = SeriesRegistration::new("be", &desc("ch", ScalarType::F64, Shape::Image(640, 480)));
    assert_eq!(reg.next_candidate(7), expected_candidate(b"bech12[640, 480]\x07\0\0\0"));
    let mut reg = SeriesRegistration::new("", &desc("w", ScalarType::I8, Shape::Wave(4096)));
    assert_eq!(reg.next_candidate(0), expected_candidate(b"w2[4096]\0\0\0\0"));
    let mut reg = SeriesRegistration::new("b", &desc("n", ScalarType::U8, Shape::Wave(u32::MAX)));
    assert_eq!(reg.next_candidate(0), expected_candidate(b"bn3[-1]\0\0\0\0"));
}

#[test]
fn registration_gives_up_after_two_hundred_attempts() {
    let mut reg = SeriesRegistration::new("sf", &desc("X", ScalarType::U16, Shape::Scalar));
    let mut n = 0;
    while !reg.exhausted() {
        reg.next_candidate(n);
        n += 1;
    }
    assert_eq!(n, 200);
}

#[test]
fn insert_answers() {
    let reg = SeriesRegistration::new("sf", &desc("X", ScalarType::U16, Shape::Scalar));
    match reg.on_insert(1, 42) {
        Some(Existence::Created(id)) => assert_eq!(id.id(), 42),
        _ => panic!("expected a created id"),
    }
    assert!(reg.on_insert(0, 42).is_none());
}

#[test]
fn existing_rows_take_the_first() {
    assert!(existing_from_rows(&vec![]).is_none());
    match existing_from_rows(&vec![17, 23]) {
        Some(Existence::Existing(id)) => assert_eq!(id.id(), 17),
        _ => panic!("expected an existing id"),
    }
}

#[test]
fn existence_and_ids() {
    assert_eq!(Existence::Created(5u32).into_inner(), 5);
    assert_eq!(Existence::Existing(6u32).into_inner(), 6);
    assert_eq!(SeriesId::new(77).id(), 77);
    assert!(SeriesId::new(1) < SeriesId::new(2));
    assert_eq!(ChannelStatusSeriesId::new(88).id(), 88);
}
