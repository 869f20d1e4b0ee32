use artifact_manifest::digest::{encode_hash, ArtifactHasher};

fn from_hex(s: &str) -> Vec<u8> {
    (0..s.len() / 2).map(|i| u8::from_str_radix(&s[2 * i..2 * i + 2], 16).unwrap()).collect()
}

#[test]
fn hash_of_empty_artifact() {
    let h = ArtifactHasher::new();
    assert_eq!("0mdqa9w1p6cmli6976v4wi0sw9r4p5prkj7lzfd1877wk11c9c73", h.finish());
}

#[test]
fn chunked_hash_equals_whole_hash() {
    let mut a = ArtifactHasher::new();
    assert!(a.update(b"hel"));
    assert!(a.update(b""));
    assert!(a.update(b"lo world"));
    let mut b = ArtifactHasher::new();
    assert!(b.update(b"hello world"));
    let (ha, hb) = (a.finish(), b.finish());
    assert_eq!(ha, hb);
    assert_eq!(52, ha.len());
    assert_ne!(ha, ArtifactHasher::new().finish());
}

#[test]
fn encodes_digest_in_nix_alphabet() {
    let d = from_hex("ab335240fd942ab8191c5e628cd4ff3903c577bda961fb75df08e0303a00527b");
    assert_eq!("0ysj00x31q08vxsznqd9pmvwa0rrzza8qqjy3hcvhallzm054cxb", encode_hash(&d));
}
