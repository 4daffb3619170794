use merkle_tree::digest::{hash_internal, hash_key};
use sha2::Digest;

fn unhex(text: &str) -> [u8; 32] {
    assert_eq!(text.len(), 64);
    let mut out = [0u8; 32];
    for i in 0..32 {
        out[i] = u8::from_str_radix(&text[2 * i..2 * i + 2], 16).unwrap();
    }
    out
}

#[test]
fn hash_key_known_values() {
    assert_eq!(
        hash_key(0),
        unhex("af5570f5a1810b7af78caf4bc70a660f0df51e42baf91d4de5b2328de0e83dfc")
    );
    assert_eq!(
        hash_key(5),
        unhex("5dee4dd60ff8d0ba9900fe91e90e0dcf65f0570d42c431f727d0300dd70dc431")
    );
    assert_eq!(
        hash_key(10),
        unhex("8d85f8467240628a94819b26bee26e3a9b2804334c63482deacec8d64ab4e1e7")
    );
    assert_eq!(
        hash_key(30),
        unhex("48a97e421546f8d4cae1cf88c51a459a8c10a88442eed63643dd263cef880c1c")
    );
    assert_eq!(
        hash_key(u64::MAX),
        unhex("12a3ae445661ce5dee78d0650d33362dec29c4f82af05e7e57fb595bbbacf0ca")
    );
}

#[test]
fn hash_key_serialises_most_significant_byte_first() {
    // A key whose eight bytes all differ tells the byte orders apart.
    let key: u64 = 0x0102_0304_0506_0708;
    assert_eq!(
        hash_key(key),
        unhex("66840dda154e8a113c31dd0ad32f7f3a366a80e8136979d8f5a101d3d29d6f72")
    );
    let direct: [u8; 32] = sha2::Sha256::digest([1u8, 2, 3, 4, 5, 6, 7, 8]).into();
    assert_eq!(hash_key(key), direct);
    let reversed: [u8; 32] = sha2::Sha256::digest([8u8, 7, 6, 5, 4, 3, 2, 1]).into();
    assert_ne!(hash_key(key), reversed);
}

#[test]
fn hash_key_agrees_with_sha256_of_big_endian_bytes() {
    for key in [0u64, 1, 2, 255, 256, 65_535, 65_536, 1 << 32, 1 << 63, u64::MAX] {
        let direct: [u8; 32] = sha2::Sha256::digest(key.to_be_bytes()).into();
        assert_eq!(hash_key(key), direct);
    }
}

#[test]
fn hash_key_is_deterministic() {
    for key in [0u64, 5, 10, 30, 1 << 40, u64::MAX] {
        assert_eq!(hash_key(key), hash_key(key));
    }
}

#[test]
fn hash_key_is_not_the_key_bytes() {
    let digest = hash_key(5);
    assert_ne!(&digest[..8], &5u64.to_be_bytes()[..]);
    assert_ne!(digest, [0u8; 32]);
}

#[test]
fn distinct_keys_give_distinct_leaves() {
    assert_ne!(hash_key(5), hash_key(10));
    assert_ne!(hash_key(0), hash_key(1));
}

#[test]
fn hash_internal_known_values() {
    assert_eq!(
        hash_internal(hash_key(5), hash_key(10)),
        unhex("567dc2496e47bd3ee4330ed4b9d1f9ecfbc27dcc2d18c031eebc77b46424184d")
    );
    assert_eq!(
        hash_internal([0u8; 32], [0u8; 32]),
        unhex("f5a5fd42d16a20302798ef6ed309979b43003d2320d9f0e8ea9831a92759fb4b")
    );
}

#[test]
fn hash_internal_hashes_left_then_right() {
    let left = hash_key(5);
    let right = hash_key(10);
    let mut joined = Vec::new();
    joined.extend_from_slice(&left);
    joined.extend_from_slice(&right);
    assert_eq!(joined.len(), 64);
    let direct: [u8; 32] = sha2::Sha256::digest(&joined).into();
    assert_eq!(hash_internal(left, right), direct);
}

#[test]
fn hash_internal_is_order_sensitive() {
    let a = hash_key(5);
    let b = hash_key(10);
    assert_ne!(a, b);
    assert_ne!(hash_internal(a, b), hash_internal(b, a));
    assert_eq!(
        hash_internal(b, a),
        unhex("06e41e514b61ec4d4fbc4233501545993203c4549568f28dc45f6beb192a3cc0")
    );
}

#[test]
fn hash_internal_is_deterministic() {
    let a = hash_key(1);
    let b = hash_key(2);
    assert_eq!(hash_internal(a, b), hash_internal(a, b));
    assert_eq!(hash_internal(a, a), hash_internal(a, a));
}

#[test]
fn hash_internal_is_neither_argument() {
    let a = hash_key(1);
    let b = hash_key(2);
    let parent = hash_internal(a, b);
    assert_ne!(parent, a);
    assert_ne!(parent, b);
    assert_ne!(hash_internal(a, a), a);
}
