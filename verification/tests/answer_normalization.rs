use katgpt_core::structural_cot_halt::{digest_to_key, normalize_answer, normalized_answer_hash};

#[test]
fn normalize_trims_lowercases_and_collapses() {
    assert_eq!(normalize_answer(b"  The Answer\t\t Is\n42 "), b"the answer is 42".to_vec());
    assert_eq!(normalize_answer(b""), Vec::<u8>::new());
    assert_eq!(normalize_answer(b" \t\r\n\x0c "), Vec::<u8>::new());
    assert_eq!(normalize_answer(b"A\r\nB"), b"a b".to_vec());
    // Vertical tab is not ASCII whitespace for `u8::is_ascii_whitespace`.
    assert_eq!(normalize_answer(b"\x0bA"), b"\x0ba".to_vec());
    // Only A–Z are lowered; other bytes pass through.
    assert_eq!(normalize_answer("ÄB@[".as_bytes()), "Äb@[".as_bytes().to_vec());
}

#[test]
fn digest_key_is_little_endian_prefix() {
    let mut d = [0u8; 32];
    d[0] = 0x01;
    d[7] = 0x80;
    d[8] = 0xff;
    assert_eq!(digest_to_key(&d), 0x8000_0000_0000_0001);
}

#[test]
fn answer_hash_is_blake3_of_normalized_answer() {
    let expected = {
        let h = blake3::hash(b"foo bar");
        u64::from_le_bytes(h.as_bytes()[..8].try_into().unwrap())
    };
    assert_eq!(normalized_answer_hash("  Foo   BAR\t"), expected);
    let empty = {
        let h = blake3::hash(b"");
        u64::from_le_bytes(h.as_bytes()[..8].try_into().unwrap())
    };
    assert_eq!(normalized_answer_hash(""), empty);
    // The BLAKE3 digest of the empty input begins af 13 49 b9 f5 f9 a1 a6.
    assert_eq!(empty, 0xa6a1_f9f5_b949_13af);
}

#[test]
fn normalizing_twice_is_normalizing_once() {
    for s in [&b"  Mixed\tCASE \r\n text  "[..], b"", b"   ", b"a", b"A\x0bB  c"] {
        let once = normalize_answer(s);
        assert_eq!(normalize_answer(&once), once);
        // No capitals, no doubled or edge whitespace.
        assert!(!once.iter().any(|b| b.is_ascii_uppercase()));
        assert!(!once.windows(2).any(|w| w[0] == b' ' && w[1] == b' '));
        assert!(once.first() != Some(&b' ') && once.last() != Some(&b' '));
    }
}

#[test]
fn whitespace_kind_and_runs_do_not_change_identity() {
    let base = normalized_answer_hash("x y");
    assert_eq!(normalized_answer_hash("x\ty"), base);
    assert_eq!(normalized_answer_hash("x\r\n\x0c y"), base);
    assert_eq!(normalized_answer_hash("\nX Y\t"), base);
    assert_ne!(normalized_answer_hash("xy"), base);
}
