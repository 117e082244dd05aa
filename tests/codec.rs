use subrpc::codec::DecodeError;
use subrpc::digest::Digest;
use subrpc::{DigestItem, DigestItemType};

fn all_items() -> Vec<DigestItem> {
    vec![
        DigestItem::PreRuntime(*b"BABE", vec![1, 2, 3]),
        DigestItem::Consensus([1, 2, 3, 4], vec![9, 9]),
        DigestItem::Seal(*b"aura", vec![]),
        DigestItem::Other(vec![7; 10]),
        DigestItem::RuntimeEnvironmentUpdated,
    ]
}

#[test]
fn consensus_scenario_round_trip() {
    let item = DigestItem::Consensus([1, 2, 3, 4], vec![9, 9]);
    let bytes = item.encode();
    assert_eq!(bytes, vec![4, 0, 0, 0, 1, 2, 3, 4, 8, 9, 9]);
    let (back, used) = DigestItem::decode(&bytes).unwrap();
    assert_eq!(back, DigestItem::Consensus([1, 2, 3, 4], vec![9, 9]));
    assert_eq!(used, bytes.len());
}

#[test]
fn round_trip_every_variant() {
    for item in all_items() {
        let bytes = item.encode();
        assert_eq!(DigestItem::decode(&bytes), Ok((item.clone(), bytes.len())));
    }
}

#[test]
fn round_trip_long_payloads() {
    for len in [0usize, 63, 64, 16383, 16384, 70000] {
        let item = DigestItem::Other(vec![0xab; len]);
        let bytes = item.encode();
        assert_eq!(DigestItem::decode(&bytes), Ok((item, bytes.len())));
    }
}

#[test]
fn compact_prefix_modes() {
    let one = DigestItem::Other(vec![0; 63]).encode();
    assert_eq!(&one[4..5], &[252]);
    let two = DigestItem::Other(vec![0; 64]).encode();
    assert_eq!(&two[4..6], &[1, 1]);
    let four = DigestItem::Other(vec![0; 16384]).encode();
    assert_eq!(&four[4..8], &[2, 0, 1, 0]);
}

#[test]
fn discriminant_prefixes() {
    let expected: [u8; 5] = [6, 4, 5, 0, 8];
    for (item, d) in all_items().into_iter().zip(expected) {
        assert_eq!(&item.encode()[..4], &[d, 0, 0, 0]);
    }
    assert_eq!(DigestItem::RuntimeEnvironmentUpdated.encode(), vec![8, 0, 0, 0]);
}

#[test]
fn type_codes() {
    assert_eq!(DigestItemType::Other.code(), 0);
    assert_eq!(DigestItemType::Consensus.code(), 4);
    assert_eq!(DigestItemType::Seal.code(), 5);
    assert_eq!(DigestItemType::PreRuntime.code(), 6);
    assert_eq!(DigestItemType::RuntimeEnvironmentUpdated.code(), 8);
    assert_eq!(DigestItemType::from_code(5), Some(DigestItemType::Seal));
    assert_eq!(DigestItemType::from_code(7), None);
}

#[test]
fn unknown_discriminants_rejected() {
    for d in [1u32, 2, 3, 7, 9, 10, 255, 256, 1 << 16, u32::MAX] {
        let mut bytes = d.to_le_bytes().to_vec();
        bytes.extend_from_slice(&[0, 0, 0, 0, 0, 0]);
        assert_eq!(DigestItem::decode(&bytes), Err(DecodeError::UnknownDiscriminant));
    }
}

#[test]
fn truncated_encodings_fail() {
    let mut items = all_items();
    items.push(DigestItem::Other(vec![]));
    items.push(DigestItem::Seal(*b"aura", vec![5; 100]));
    for item in items {
        let mut bytes = item.encode();
        bytes.pop();
        let r = DigestItem::decode(&bytes);
        assert!(
            r == Err(DecodeError::TruncatedInput) || r == Err(DecodeError::LengthOverflow),
            "{:?}",
            r
        );
    }
}

#[test]
fn truncation_errors_by_field() {
    assert_eq!(DigestItem::decode(&[]), Err(DecodeError::TruncatedInput));
    assert_eq!(DigestItem::decode(&[4, 0, 0]), Err(DecodeError::TruncatedInput));
    assert_eq!(DigestItem::decode(&[4, 0, 0, 0, 1, 2]), Err(DecodeError::TruncatedInput));
    assert_eq!(DigestItem::decode(&[0, 0, 0, 0, 12, 1]), Err(DecodeError::LengthOverflow));
}

#[test]
fn trailing_bytes_left_for_caller() {
    let a = DigestItem::Seal(*b"aura", vec![1, 2]);
    let b = DigestItem::Other(vec![3]);
    let mut bytes = a.encode();
    bytes.extend(b.encode());
    let (first, used) = DigestItem::decode(&bytes).unwrap();
    assert_eq!(first, a);
    let (second, used2) = DigestItem::decode(&bytes[used..]).unwrap();
    assert_eq!(second, b);
    assert_eq!(used + used2, bytes.len());
}

#[test]
fn view_encodes_like_owned() {
    for item in all_items() {
        assert_eq!(item.dref().encode(), item.encode());
    }
}

#[test]
fn log_round_trip_keeps_order() {
    let mut d = Digest::default();
    d.push(DigestItem::Seal(*b"aura", vec![1]));
    d.push(DigestItem::Seal(*b"aura", vec![2]));
    d.push(DigestItem::RuntimeEnvironmentUpdated);
    let bytes = d.encode();
    assert_eq!(bytes[0], 12);
    assert_eq!(Digest::decode(&bytes), Ok((d.clone(), bytes.len())));
    assert_eq!(Digest::decode(&[0]), Ok((Digest::default(), 1)));
    assert_eq!(Digest::decode(&[]), Err(DecodeError::TruncatedInput));
    assert_eq!(Digest::decode(&bytes[..bytes.len() - 1]), Err(DecodeError::TruncatedInput));
    let mut bad = bytes.clone();
    bad[1] = 7;
    assert_eq!(Digest::decode(&bad), Err(DecodeError::UnknownDiscriminant));
}
