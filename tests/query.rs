use parity_scale_codec::Decode;
use subrpc::digest::Digest;
use subrpc::{DigestItem, OpaqueDigestItemId};

fn decode_u32(b: &[u8]) -> Option<u32> {
    u32::decode(&mut &b[..]).ok()
}

#[test]
fn consensus_scenario_selectors() {
    let item = DigestItem::Consensus([1, 2, 3, 4], vec![9, 9]);
    let (item, _) = DigestItem::decode(&item.encode()).unwrap();
    assert_eq!(item.try_as_raw(OpaqueDigestItemId::Consensus(&[1, 2, 3, 4])), Some(&[9u8, 9][..]));
    assert_eq!(item.try_as_raw(OpaqueDigestItemId::Consensus(&[0, 0, 0, 0])), None);
    assert_eq!(item.try_as_raw(OpaqueDigestItemId::Other), None);
}

#[test]
fn selector_matching_every_variant() {
    let id = *b"eng1";
    let other_id = *b"eng2";
    let p = vec![1u8, 2, 3];
    let items = [
        DigestItem::PreRuntime(id, p.clone()),
        DigestItem::Consensus(id, p.clone()),
        DigestItem::Seal(id, p.clone()),
        DigestItem::Other(p.clone()),
        DigestItem::RuntimeEnvironmentUpdated,
    ];
    let selectors = [
        OpaqueDigestItemId::PreRuntime(&id),
        OpaqueDigestItemId::Consensus(&id),
        OpaqueDigestItemId::Seal(&id),
        OpaqueDigestItemId::Other,
    ];
    for (i, item) in items.iter().enumerate() {
        for (j, sel) in selectors.iter().enumerate() {
            let expected = if i == j { Some(&p[..]) } else { None };
            assert_eq!(item.try_as_raw(*sel), expected);
        }
        assert_eq!(item.try_as_raw(OpaqueDigestItemId::PreRuntime(&other_id)), None);
        assert_eq!(item.try_as_raw(OpaqueDigestItemId::Consensus(&other_id)), None);
        assert_eq!(item.try_as_raw(OpaqueDigestItemId::Seal(&other_id)), None);
    }
}

#[test]
fn variant_accessors() {
    let id = *b"BABE";
    let pre = DigestItem::PreRuntime(id, vec![1]);
    assert_eq!(pre.as_pre_runtime(), Some((id, &[1u8][..])));
    assert_eq!(pre.as_consensus(), None);
    assert_eq!(pre.as_seal(), None);
    assert_eq!(pre.as_other(), None);
    let cons = DigestItem::Consensus(id, vec![2]);
    assert_eq!(cons.as_consensus(), Some((id, &[2u8][..])));
    assert_eq!(cons.as_pre_runtime(), None);
    let seal = DigestItem::Seal(id, vec![3]);
    assert_eq!(seal.as_seal(), Some((id, &[3u8][..])));
    assert_eq!(seal.dref().as_seal(), Some((id, &[3u8][..])));
    let other = DigestItem::Other(vec![4]);
    assert_eq!(other.as_other(), Some(&[4u8][..]));
    assert_eq!(other.dref().as_other(), Some(&[4u8][..]));
    assert_eq!(DigestItem::RuntimeEnvironmentUpdated.as_other(), None);
}

#[test]
fn typed_decode_mismatch_and_bad_payload_agree() {
    let id = *b"BABE";
    let good = DigestItem::Consensus(id, vec![1, 0, 0, 0]);
    let bad = DigestItem::Consensus(id, vec![1, 0]);
    let sel = OpaqueDigestItemId::Consensus(&id);
    assert_eq!(good.try_to(sel, decode_u32), Some(1u32));
    let mismatch = good.try_to(OpaqueDigestItemId::Seal(&id), decode_u32);
    let undecodable = bad.try_to(sel, decode_u32);
    assert_eq!(mismatch, None);
    assert_eq!(undecodable, None);
    assert_eq!(mismatch, undecodable);
}

#[test]
fn single_variant_typed_queries() {
    let id = *b"BABE";
    let seal = DigestItem::Seal(id, vec![7, 0, 0, 0]);
    assert_eq!(seal.seal_try_to(&id, decode_u32), Some(7));
    assert_eq!(seal.seal_try_to(b"aura", decode_u32), None);
    assert_eq!(seal.consensus_try_to(&id, decode_u32), None);
    let cons = DigestItem::Consensus(id, vec![8, 0, 0, 0]);
    assert_eq!(cons.consensus_try_to(&id, decode_u32), Some(8));
    assert_eq!(cons.pre_runtime_try_to(&id, decode_u32), None);
    let pre = DigestItem::PreRuntime(id, vec![9, 0, 0, 0]);
    assert_eq!(pre.pre_runtime_try_to(&id, decode_u32), Some(9));
    assert_eq!(pre.pre_runtime_try_to(&id, |b: &[u8]| u64::decode(&mut &b[..]).ok()), None);
    assert_eq!(pre.dref().try_to(OpaqueDigestItemId::PreRuntime(&id), decode_u32), Some(9));
}

#[test]
fn first_match_search_takes_earlier_item() {
    let id = *b"BABE";
    let mut d = Digest::default();
    d.push(DigestItem::Other(vec![0]));
    d.push(DigestItem::Seal(id, vec![1]));
    d.push(DigestItem::Seal(id, vec![2]));
    let found = d.log(|x| x.try_as_raw(OpaqueDigestItemId::Seal(&id)));
    assert_eq!(found, Some(&[1u8][..]));
    let converted = d.convert_first(|x| x.try_as_raw(OpaqueDigestItemId::Seal(&id)).map(|s| s.to_vec()));
    assert_eq!(converted, Some(vec![1u8]));
    assert_eq!(d.convert_first(|x| x.as_consensus().map(|c| c.0)), None);
}

#[test]
fn digest_push_pop_and_order() {
    let mut d = Digest::default();
    assert!(d.logs().is_empty());
    assert_eq!(d.pop(), None);
    d.push(DigestItem::Other(vec![1]));
    d.push(DigestItem::Other(vec![1]));
    d.push(DigestItem::RuntimeEnvironmentUpdated);
    assert_eq!(d.logs().len(), 3);
    assert_eq!(d.logs()[0], DigestItem::Other(vec![1]));
    assert_eq!(d.pop(), Some(DigestItem::RuntimeEnvironmentUpdated));
    assert_eq!(d.logs().len(), 2);
}
