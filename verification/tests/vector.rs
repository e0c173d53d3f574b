use paninifs_core::signature::signature_of_digest;
use paninifs_core::vector::{category_digest, weight_of_digest};
use paninifs_core::{Dhatu, DhatuVector};

fn unhex(text: &str) -> Vec<u8> {
    (0..text.len() / 2).map(|i| u8::from_str_radix(&text[2 * i..2 * i + 2], 16).unwrap()).collect()
}

fn floats(vector: &DhatuVector) -> Vec<f64> {
    vector.weights.iter().map(|bits| f64::from_bits(*bits)).collect()
}

fn scattered_vectors(count: usize, choices: u64) -> Vec<DhatuVector> {
    let mut state: u64 = 0x2545_f491_4f6c_dd1d;
    let mut out = Vec::new();
    for _ in 0..count {
        let mut weights = [0u64; 9];
        for w in weights.iter_mut() {
            state = state.wrapping_mul(6364136223846793005).wrapping_add(1442695040888963407);
            let pick = (state >> 33) % choices;
            *w = (pick as f64 / choices as f64).to_bits();
        }
        out.push(DhatuVector { weights });
    }
    out
}

#[test]
fn category_digest_hashes_name_separator_and_content() {
    assert_eq!(
        category_digest(Dhatu::RELATE, b"").to_vec(),
        unhex("05f9fbd94ea5adab4dd7cfc23a422f9329e2c36665ee49386ac1dfa6b3a9d2b6")
    );
    assert_eq!(
        category_digest(Dhatu::FEEL, b"hello").to_vec(),
        unhex("76d7af37bb863fd3100cf287a56951595d167b8fcab7e425c7e3698bc655b572")
    );
}

#[test]
fn weight_of_digest_sums_five_bytes() {
    let mut digest = [0u8; 32];
    assert_eq!(weight_of_digest(&digest), 0);
    digest[0] = 1;
    digest[5] = 20;
    digest[13] = 30;
    digest[21] = 40;
    digest[29] = 200;
    assert_eq!(weight_of_digest(&digest), 291);
    digest[1] = 255;
    digest[31] = 255;
    digest[28] = 255;
    assert_eq!(weight_of_digest(&digest), 291);
    assert_eq!(weight_of_digest(&[255u8; 32]), 1275);
}

#[test]
fn from_raw_weights_divides_by_the_sum() {
    let vector = DhatuVector::from_raw_weights([1, 1, 2, 0, 0, 0, 0, 0, 0]);
    assert_eq!(floats(&vector), vec![0.25, 0.25, 0.5, 0.0, 0.0, 0.0, 0.0, 0.0, 0.0]);
    let vector = DhatuVector::from_raw_weights([0, 0, 0, 0, 7, 0, 0, 0, 0]);
    assert_eq!(floats(&vector), vec![0.0, 0.0, 0.0, 0.0, 1.0, 0.0, 0.0, 0.0, 0.0]);
    let vector = DhatuVector::from_raw_weights([1275; 9]);
    assert_eq!(vector.weights, [0x3fbc_71c7_1c71_c71c; 9]);
}

#[test]
fn from_raw_weights_leaves_all_zero_as_it_is() {
    let vector = DhatuVector::from_raw_weights([0; 9]);
    assert_eq!(vector.weights, [0u64; 9]);
}

#[test]
fn from_raw_weights_takes_the_largest_raw_weights() {
    let vector = DhatuVector::from_raw_weights([u16::MAX; 9]);
    assert_eq!(vector.weights, [(1.0f64 / 9.0).to_bits(); 9]);
    let vector = DhatuVector::from_raw_weights([u16::MAX, 1, 0, 0, 0, 0, 0, 0, 0]);
    assert_eq!(vector.weights[0], (65535.0f64 / 65536.0).to_bits());
    assert_eq!(vector.weights[1], (1.0f64 / 65536.0).to_bits());
}

#[test]
fn from_raw_weights_agrees_with_float_arithmetic() {
    let mut state: u64 = 0x1234_5678_9abc_def1;
    for _ in 0..2000 {
        let mut raw = [0u16; 9];
        for r in raw.iter_mut() {
            state = state.wrapping_mul(6364136223846793005).wrapping_add(1442695040888963407);
            *r = ((state >> 40) % 1276) as u16;
        }
        let mut expected = [0.0f64; 9];
        for i in 0..9 {
            expected[i] = raw[i] as f64 / 1024.0;
        }
        let sum: f64 = expected.iter().sum();
        if sum > 0.0 {
            for e in expected.iter_mut() {
                *e /= sum;
            }
        }
        let vector = DhatuVector::from_raw_weights(raw);
        for i in 0..9 {
            assert_eq!(vector.weights[i], expected[i].to_bits());
        }
    }
}

#[test]
fn from_content_of_empty_bytes() {
    let vector = DhatuVector::from_content(b"");
    assert_eq!(
        vector.weights,
        [
            0x3fbdf784972f955e,
            0x3fb8b355cca43c37,
            0x3fb6f9e50ffc4589,
            0x3fc3219a1f39a66d,
            0x3fb62f122116e208,
            0x3fbb13ce995466b8,
            0x3fbe4b089f33af48,
            0x3fc262b57a9dfd7c,
            0x3fb7c4b7fee1a909,
        ]
    );
}

#[test]
fn from_content_of_hello() {
    let vector = DhatuVector::from_content(b"hello");
    assert_eq!(
        vector.weights,
        [
            0x3fb8f203c4e28aaa,
            0x3fbbd25fd063fad8,
            0x3fabc5adace1bf87,
            0x3fbb92e51ed8d246,
            0x3fbc5e0756fc874a,
            0x3fb5c57ae453b69a,
            0x3fc5337a4bfa0c7f,
            0x3fc31e40789c5155,
            0x3fbefee8b0f2cee7,
        ]
    );
    assert_eq!(vector.weights[6], (855.0f64 / 5162.0).to_bits());
}

#[test]
fn from_content_is_deterministic() {
    for content in [&b""[..], b"hello", b"hello world", &[0u8; 1000]] {
        let a = DhatuVector::from_content(content);
        let b = DhatuVector::from_content(content);
        assert_eq!(a.weights, b.weights);
        assert_eq!(a.signature(), b.signature());
        assert_eq!(a.top_dhatus(9), b.top_dhatus(9));
    }
}

#[test]
fn from_content_weights_sum_to_one() {
    let contents: [&[u8]; 5] =
        [b"", b"hello", b"hello world", b"The quick brown fox jumps over the lazy dog", &[7u8; 4096]];
    for content in contents {
        let vector = DhatuVector::from_content(content);
        let sum: f64 = floats(&vector).iter().sum();
        assert!((sum - 1.0).abs() < 1e-9, "sum is {}", sum);
        for w in floats(&vector) {
            assert!(w >= 0.0 && w <= 1.0);
        }
    }
}

#[test]
fn from_raw_weights_sum_to_one() {
    let mut state: u64 = 0x0dd0_beef_cafe_f00d;
    for _ in 0..2000 {
        let mut raw = [0u16; 9];
        for r in raw.iter_mut() {
            state = state.wrapping_mul(6364136223846793005).wrapping_add(1442695040888963407);
            *r = (state >> 48) as u16;
        }
        if raw.iter().all(|r| *r == 0) {
            continue;
        }
        let sum: f64 = floats(&DhatuVector::from_raw_weights(raw)).iter().sum();
        assert!((sum - 1.0).abs() < 1e-9, "sum is {}", sum);
    }
}

#[test]
fn to_le_bytes_lays_weights_out_lowest_byte_first() {
    let vector = DhatuVector {
        weights: [0x0102_0304_0506_0708, 0, u64::MAX, 1, 0x8000_0000_0000_0000, 2, 3, 4, 0xff00],
    };
    let bytes = vector.to_le_bytes();
    assert_eq!(bytes.len(), 72);
    assert_eq!(&bytes[0..8], &[8, 7, 6, 5, 4, 3, 2, 1]);
    let mut expected = Vec::new();
    for w in vector.weights {
        expected.extend_from_slice(&f64::from_bits(w).to_le_bytes());
    }
    assert_eq!(bytes, expected);
}

#[test]
fn signature_of_digest_is_hex_of_first_eight_bytes() {
    let mut digest = [0u8; 32];
    for (i, b) in digest.iter_mut().enumerate() {
        *b = (i * 17) as u8;
    }
    assert_eq!(signature_of_digest(&digest), "00112233445566778899aabbccddeeff"[..16]);
    assert_eq!(signature_of_digest(&[0xabu8; 32]), "abababababababab");
}

#[test]
fn signature_of_known_vectors() {
    assert_eq!(DhatuVector { weights: [0; 9] }.signature(), "834a709ba2534ebe");
    assert_eq!(
        DhatuVector { weights: [(1.0f64 / 9.0).to_bits(); 9] }.signature(),
        "1d0bc7dcc84adbb4"
    );
    assert_eq!(DhatuVector::from_content(b"").signature(), "26a1e3eaec5b736e");
    assert_eq!(DhatuVector::from_content(b"hello").signature(), "e186629d6855372f");
    assert_eq!(DhatuVector::from_content(b"hello world").signature(), "8924cba9554b2433");
}

#[test]
fn signature_is_sixteen_lower_case_hex_digits() {
    for content in [&b""[..], b"a", b"hello", &[0xffu8; 300]] {
        let signature = DhatuVector::from_content(content).signature();
        assert_eq!(signature.len(), 16);
        assert!(signature.chars().all(|c| c.is_ascii_digit() || ('a'..='f').contains(&c)));
    }
}

#[test]
fn signature_depends_on_the_weights_alone() {
    let from_content = DhatuVector::from_content(b"hello");
    let copy = DhatuVector { weights: from_content.weights };
    assert_eq!(from_content.signature(), copy.signature());
}

#[test]
fn different_vectors_have_different_signatures_here() {
    let contents: [&[u8]; 4] = [b"", b"hello", b"hello world", b"hellp"];
    for a in contents {
        for b in contents {
            let va = DhatuVector::from_content(a);
            let vb = DhatuVector::from_content(b);
            if va.signature() == vb.signature() {
                assert_eq!(va.weights, vb.weights);
            }
            if a != b {
                assert_ne!(va.weights, vb.weights);
                assert_ne!(va.signature(), vb.signature());
            }
        }
    }
}

#[test]
fn top_dhatus_of_empty_content() {
    let top = DhatuVector::from_content(b"").top_dhatus(4);
    assert_eq!(
        top,
        vec![
            (Dhatu::EVAL, 0x3fc3219a1f39a66d),
            (Dhatu::DECIDE, 0x3fc262b57a9dfd7c),
            (Dhatu::ITER, 0x3fbe4b089f33af48),
            (Dhatu::RELATE, 0x3fbdf784972f955e),
        ]
    );
}

#[test]
fn top_dhatus_of_hello() {
    let top = DhatuVector::from_content(b"hello").top_dhatus(4);
    assert_eq!(
        top,
        vec![
            (Dhatu::ITER, 0x3fc5337a4bfa0c7f),
            (Dhatu::DECIDE, 0x3fc31e40789c5155),
            (Dhatu::FEEL, 0x3fbefee8b0f2cee7),
            (Dhatu::COMM, 0x3fbc5e0756fc874a),
        ]
    );
}

#[test]
fn top_dhatus_returns_min_of_k_and_nine() {
    let vector = DhatuVector::from_content(b"hello");
    for k in 0..=9usize {
        assert_eq!(vector.top_dhatus(k).len(), k);
    }
    assert_eq!(vector.top_dhatus(10).len(), 9);
    assert_eq!(vector.top_dhatus(usize::MAX).len(), 9);
    assert!(vector.top_dhatus(0).is_empty());
}

#[test]
fn top_dhatus_is_a_prefix_of_the_full_ranking() {
    let vector = DhatuVector::from_content(b"hello world");
    let full = vector.top_dhatus(9);
    for k in 0..=9usize {
        assert_eq!(vector.top_dhatus(k), full[..k].to_vec());
    }
}

#[test]
fn top_dhatus_breaks_ties_by_declaration_order() {
    let all_equal = DhatuVector { weights: [0.5f64.to_bits(); 9] };
    let order: Vec<Dhatu> = all_equal.top_dhatus(9).iter().map(|p| p.0).collect();
    assert_eq!(order, Dhatu::ALL.to_vec());
    let zeros = DhatuVector { weights: [0; 9] };
    let order: Vec<Dhatu> = zeros.top_dhatus(4).iter().map(|p| p.0).collect();
    assert_eq!(order, vec![Dhatu::RELATE, Dhatu::MODAL, Dhatu::EXIST, Dhatu::EVAL]);
    let mixed = DhatuVector {
        weights: [0.1, 0.3, 0.1, 0.3, 0.0, 0.1, 0.3, 0.0, 0.2].map(|w: f64| w.to_bits()),
    };
    let order: Vec<Dhatu> = mixed.top_dhatus(9).iter().map(|p| p.0).collect();
    assert_eq!(
        order,
        vec![
            Dhatu::MODAL,
            Dhatu::EVAL,
            Dhatu::ITER,
            Dhatu::FEEL,
            Dhatu::RELATE,
            Dhatu::EXIST,
            Dhatu::CAUSE,
            Dhatu::COMM,
            Dhatu::DECIDE,
        ]
    );
}

#[test]
fn top_dhatus_treats_both_zeros_as_equal() {
    let vector = DhatuVector {
        weights: [0.0, -0.0, 0.0, -0.0, 1.0, -1.0, 0.0, -0.0, 0.0].map(|w: f64| w.to_bits()),
    };
    let ranked = vector.top_dhatus(9);
    let order: Vec<Dhatu> = ranked.iter().map(|p| p.0).collect();
    assert_eq!(
        order,
        vec![
            Dhatu::COMM,
            Dhatu::RELATE,
            Dhatu::MODAL,
            Dhatu::EXIST,
            Dhatu::EVAL,
            Dhatu::ITER,
            Dhatu::DECIDE,
            Dhatu::FEEL,
            Dhatu::CAUSE,
        ]
    );
    assert_eq!(ranked[2].1, (-0.0f64).to_bits());
}

#[test]
fn top_dhatus_orders_weights_downwards() {
    for vector in scattered_vectors(500, 5) {
        let ranked = vector.top_dhatus(9);
        for i in 0..ranked.len() {
            assert_eq!(ranked[i].1, vector.weights[ranked[i].0.index()]);
            for j in i + 1..ranked.len() {
                let (a, b) = (f64::from_bits(ranked[i].1), f64::from_bits(ranked[j].1));
                assert!(a >= b);
                if a == b {
                    assert!(ranked[i].0.index() < ranked[j].0.index());
                }
            }
        }
    }
}

#[test]
fn top_dhatus_agrees_with_a_stable_sort_of_floats() {
    for (n, vector) in scattered_vectors(500, 7).iter().enumerate() {
        let mut pairs: Vec<(Dhatu, f64)> = Dhatu::ALL
            .iter()
            .zip(vector.weights.iter())
            .map(|(d, w)| (*d, f64::from_bits(*w)))
            .collect();
        pairs.sort_by(|a, b| b.1.partial_cmp(&a.1).unwrap());
        let k = n % 11;
        pairs.truncate(k);
        let expected: Vec<(Dhatu, u64)> = pairs.iter().map(|p| (p.0, p.1.to_bits())).collect();
        assert_eq!(vector.top_dhatus(k), expected);
    }
}

#[test]
fn vectors_clone_and_print() {
    let vector = DhatuVector { weights: [1, 2, 3, 4, 5, 6, 7, 8, 9] };
    assert_eq!(vector.clone().weights, vector.weights);
    assert_eq!(format!("{:?}", vector), "DhatuVector { weights: [1, 2, 3, 4, 5, 6, 7, 8, 9] }");
}
