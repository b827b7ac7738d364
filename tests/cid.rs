use ipfs_serve::frame::{length_prefixed, read_frame, Frame};
use ipfs_serve::cid::{read_cid, Cid, CidPrefix, Multihash, Version};
use ipfs_serve::varint::read_varint;

fn v0(n: u8) -> Cid {
    Cid { version: Version::V0, codec: 0x70, hash: Multihash { code: 0x12, digest: vec![n; 32] } }
}

#[test]
fn v0_bytes_are_the_bare_multihash() {
    let c = v0(5);
    let b = c.to_bytes();
    assert_eq!(b.len(), 34);
    assert_eq!(&b[..2], &[0x12, 0x20]);
    let back = read_cid(&b).unwrap();
    assert_eq!(back.version, Version::V0);
    assert_eq!(back.codec, 0x70);
    assert_eq!(back.hash.digest, vec![5; 32]);
}

#[test]
fn v0_prefix_omits_version_and_codec() {
    let p = CidPrefix::from_cid(&v0(5));
    assert_eq!(p.to_bytes(), vec![0x12, 0x20]);
}

#[test]
fn v1_round_trip_with_long_varints() {
    let c = Cid { version: Version::V1, codec: 0x71, hash: Multihash { code: 0xb220, digest: vec![1; 32] } };
    let b = c.to_bytes();
    assert_eq!(&b[..6], &[0x01, 0x71, 0xa0, 0xe4, 0x02, 0x20]);
    let back = read_cid(&b).unwrap();
    assert_eq!(back.version, Version::V1);
    assert_eq!(back.codec, 0x71);
    assert_eq!(back.hash.code, 0xb220);
    assert_eq!(back.hash.digest, vec![1; 32]);
    assert_eq!(CidPrefix::from_cid(&c).to_bytes(), vec![0x01, 0x71, 0xa0, 0xe4, 0x02, 0x20]);
}

#[test]
fn prefix_is_a_prefix_of_the_cid() {
    for c in [v0(1), Cid { version: Version::V1, codec: 0x55, hash: Multihash { code: 0x12, digest: vec![2; 20] } }] {
        let p = CidPrefix::from_cid(&c).to_bytes();
        let b = c.to_bytes();
        assert!(b.starts_with(&p));
        assert_eq!(b.len(), p.len() + c.hash.digest.len());
    }
}

#[test]
fn trailing_bytes_are_ignored() {
    let mut b = v0(3).to_bytes();
    b.extend_from_slice(&[9, 9, 9]);
    assert_eq!(read_cid(&b).unwrap().hash.digest, vec![3; 32]);
}

#[test]
fn bad_cids_are_rejected() {
    assert!(read_cid(&[]).is_none());
    assert!(read_cid(&[0x12, 0x20, 1, 2]).is_none());
    assert!(read_cid(&[0x02, 0x55, 0x12, 0x01, 0]).is_none());
    // Explicit version 0.
    assert!(read_cid(&[0x00, 0x70, 0x12, 0x01, 0]).is_none());
    // Digest longer than a multihash may hold.
    let mut b = vec![0x01, 0x55, 0x12, 0x41];
    b.extend_from_slice(&[0; 65]);
    assert!(read_cid(&b).is_none());
    // Non-minimal varint.
    assert!(read_cid(&[0x81, 0x00, 0x55, 0x12, 0x01, 0]).is_none());
}

#[test]
fn varints() {
    assert_eq!(read_varint(&[0x00], 0), Some((0, 1)));
    assert_eq!(read_varint(&[0x7f], 0), Some((127, 1)));
    assert_eq!(read_varint(&[9, 0x80, 0x01], 1), Some((128, 2)));
    assert_eq!(read_varint(&[0xa0, 0xe4, 0x02], 0), Some((0xb220, 3)));
    assert_eq!(read_varint(&[0x80], 0), None);
    assert_eq!(read_varint(&[0x80, 0x00], 0), None);
    assert_eq!(read_varint(&[0xff, 0xff, 0xff, 0xff, 0xff, 0xff, 0xff, 0xff, 0xff, 0x01], 0), Some((u64::MAX, 10)));
}

#[test]
fn frames() {
    let f = length_prefixed(&vec![7; 200]);
    assert_eq!(&f[..2], &[0xc8, 0x01]);
    assert_eq!(f.len(), 202);
    assert_eq!(read_frame(&f), Frame::Complete { header: 2, len: 200 });
    assert_eq!(read_frame(&f[..100]), Frame::Pending);
    assert_eq!(read_frame(&[]), Frame::Pending);
    assert_eq!(read_frame(&[0x00]), Frame::Complete { header: 1, len: 0 });
    // 32 KiB is allowed, one byte more is not.
    assert_eq!(read_frame(&[0x80, 0x80, 0x02]), Frame::Pending);
    assert_eq!(read_frame(&[0x81, 0x80, 0x02]), Frame::TooLarge);
}
