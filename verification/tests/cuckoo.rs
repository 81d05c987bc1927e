use cuckoo::Cuckoo;

/// An 80-byte message, all zero but for the byte at index 76.
fn message(tag: u8) -> [u8; 80] {
    let mut m = [0u8; 80];
    m[76] = tag;
    m
}

/// The reference vectors: each message with its expected proof for the
/// parameters `max_vertex = 16`, `max_edge = 8`, `cycle_length = 6`.
fn testset() -> [([u8; 80], [u32; 6]); 3] {
    [
        (message(0x1c), [0, 1, 2, 4, 5, 6]),
        (message(0x36), [0, 1, 2, 3, 4, 7]),
        (message(0xf6), [0, 1, 2, 4, 5, 7]),
    ]
}

#[test]
fn solve_cuckoo() {
    let cuckoo = Cuckoo::new(16, 8, 6);
    for (message, proof) in testset().iter() {
        assert_eq!(cuckoo.solve(message).unwrap(), proof);
    }
}

#[test]
fn verify_cuckoo() {
    let cuckoo = Cuckoo::new(16, 8, 6);
    for (message, proof) in testset().iter() {
        assert!(cuckoo.verify(message, proof));
    }
}

#[test]
fn solve_round_trips_through_verify() {
    let cuckoo = Cuckoo::new(16, 8, 6);
    for (message, _) in testset().iter() {
        let proof = cuckoo.solve(message).unwrap();
        assert!(cuckoo.verify(message, &proof));
    }
}

#[test]
fn solve_proofs_are_ascending_and_in_range() {
    let cuckoo = Cuckoo::new(16, 8, 6);
    for (message, _) in testset().iter() {
        let proof = cuckoo.solve(message).unwrap();
        assert_eq!(proof.len(), 6);
        for w in proof.windows(2) {
            assert!(w[0] < w[1]);
        }
        for n in proof.iter() {
            assert!(*n < 8);
        }
    }
}

#[test]
fn verify_rejects_wrong_length() {
    let cuckoo = Cuckoo::new(16, 8, 6);
    let (message, _) = testset()[0];
    assert!(!cuckoo.verify(&message, &[0, 1, 2, 4, 5]));
    assert!(!cuckoo.verify(&message, &[0, 1, 2, 3, 4, 5, 6]));
    assert!(!cuckoo.verify(&message, &[]));
}

#[test]
fn verify_rejects_out_of_range_index() {
    let cuckoo = Cuckoo::new(16, 8, 6);
    let (message, _) = testset()[0];
    assert!(!cuckoo.verify(&message, &[0, 1, 2, 4, 5, 8]));
    assert!(!cuckoo.verify(&message, &[0, 1, 2, 4, 5, u32::MAX]));
}

#[test]
fn verify_rejects_duplicated_indices() {
    let cuckoo = Cuckoo::new(16, 8, 6);
    // Each index twice: the edge set is a union of disjoint two-edge cycles
    // (or holds vertices of degree four), never a single six-edge cycle.
    for (message, proof) in testset().iter() {
        let doubled = [proof[0], proof[0], proof[1], proof[1], proof[2], proof[2]];
        assert!(!cuckoo.verify(message, &doubled));
        let repeated = [proof[0]; 6];
        assert!(!cuckoo.verify(message, &repeated));
    }
}

#[test]
fn verify_rejects_foreign_proof() {
    let cuckoo = Cuckoo::new(16, 8, 6);
    let (second_message, _) = testset()[1];
    assert!(!cuckoo.verify(&second_message, &[0, 1, 2, 4, 5, 6]));
}

#[test]
fn verify_is_order_independent() {
    let cuckoo = Cuckoo::new(16, 8, 6);
    for (message, proof) in testset().iter() {
        let mut reversed = *proof;
        reversed.reverse();
        assert!(cuckoo.verify(message, &reversed));
        let rotated = [proof[2], proof[3], proof[4], proof[5], proof[0], proof[1]];
        assert!(cuckoo.verify(message, &rotated));
        let shuffled = [proof[3], proof[0], proof[5], proof[2], proof[1], proof[4]];
        assert!(cuckoo.verify(message, &shuffled));
    }
}

#[test]
fn solve_with_other_cycle_length_round_trips() {
    // Whatever the solver finds (or fails to find) at another cycle length,
    // a returned proof must verify.
    for target in [4usize, 8] {
        let cuckoo = Cuckoo::new(16, 8, target);
        for (message, _) in testset().iter() {
            if let Some(proof) = cuckoo.solve(message) {
                assert_eq!(proof.len(), target);
                assert!(cuckoo.verify(message, &proof));
            }
        }
    }
}

#[test]
fn edge_is_deterministic() {
    let cuckoo = Cuckoo::new(16, 8, 6);
    let (message, _) = testset()[0];
    let keys = cuckoo::keys::derive_keys(&message);
    for i in 0..8u32 {
        assert_eq!(cuckoo.edge(&keys, i), cuckoo.edge(&keys, i));
    }
}

#[test]
fn keys_match_independent_blake2b() {
    // Cross-check the key derivation against a second Blake2b
    // implementation: the four keys must be the little-endian words of the
    // 32-byte digest.
    for (message, _) in testset().iter() {
        let digest = blake2b_simd::Params::new().hash_length(32).hash(message);
        let bytes = digest.as_bytes();
        let expected: [u64; 4] = [
            u64::from_le_bytes(bytes[0..8].try_into().unwrap()),
            u64::from_le_bytes(bytes[8..16].try_into().unwrap()),
            u64::from_le_bytes(bytes[16..24].try_into().unwrap()),
            u64::from_le_bytes(bytes[24..32].try_into().unwrap()),
        ];
        assert_eq!(cuckoo::keys::derive_keys(message), expected);
    }
}
