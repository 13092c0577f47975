use sha2::{Digest, Sha256};
use shaipot::hash256::{get_u64, hash_of_le_bytes, read_le_u64, Hash256};
use shaipot::hasher::{
    compute_hash_no_vdf, digest_of_hex, path_bytes, reversed_bytes, seal_path, serialise_path,
    stage_one_hash,
};
use shaipot::utils::{check_target, format_nonce, generate_nonce, is_hex_text, meets_target};
use shaipot::vdf_solution::HCGraphUtil;

fn sha(bytes: &[u8]) -> Vec<u8> {
    Sha256::digest(bytes).to_vec()
}

#[test]
fn words_are_read_little_endian() {
    let bytes: Vec<u8> = (1u8..=32).collect();
    assert_eq!(read_le_u64(&bytes), 0x0807_0605_0403_0201);
    assert_eq!(get_u64(&bytes, 0), 0x0807_0605_0403_0201);
    assert_eq!(get_u64(&bytes, 3), 0x201f_1e1d_1c1b_1a19);
    let h = hash_of_le_bytes(&bytes);
    assert_eq!(h.w0, 0x0807_0605_0403_0201);
    assert_eq!(h.w1, 0x100f_0e0d_0c0b_0a09);
    assert_eq!(h.w2, 0x1817_1615_1413_1211);
    assert_eq!(h.w3, 0x201f_1e1d_1c1b_1a19);
    assert_eq!(read_le_u64(&[0xff; 8]), u64::MAX);
}

#[test]
fn hash_order_goes_by_the_highest_word() {
    let small = Hash256 { w0: u64::MAX, w1: u64::MAX, w2: u64::MAX, w3: 0 };
    let large = Hash256 { w0: 0, w1: 0, w2: 0, w3: 1 };
    assert!(small.lt(&large));
    assert!(!large.lt(&small));
    assert!(!small.lt(&small));
    let a = Hash256 { w0: 5, w1: 1, w2: 2, w3: 3 };
    let b = Hash256 { w0: 6, w1: 1, w2: 2, w3: 3 };
    assert!(a.lt(&b));
    assert!(!b.lt(&a));
    assert_eq!(Hash256::zero(), Hash256 { w0: 0, w1: 0, w2: 0, w3: 0 });
    assert!(Hash256::zero().lt(&a));
}

#[test]
fn path_bytes_in_both_orders() {
    let path = vec![0x0102u16, 0xffff, 0x00a0];
    assert_eq!(path_bytes(&path, true), vec![0x01, 0x02, 0xff, 0xff, 0x00, 0xa0]);
    assert_eq!(path_bytes(&path, false), vec![0x02, 0x01, 0xff, 0xff, 0xa0, 0x00]);
    assert_eq!(path_bytes(&Vec::new(), true), Vec::<u8>::new());
}

#[test]
fn bytes_are_reversed() {
    assert_eq!(reversed_bytes(&vec![1, 2, 3]), vec![3, 2, 1]);
    assert_eq!(reversed_bytes(&Vec::new()), Vec::<u8>::new());
}

#[test]
fn path_is_padded_and_written_low_byte_first() {
    let text = serialise_path(vec![0x0000, 0x0102, 0x07d0]);
    assert_eq!(text.len(), 2008 * 4);
    assert_eq!(&text[..12], "00000201d007");
    assert!(text[12..].chars().all(|c| c == 'f'));
    let full = serialise_path(vec![0x00ab; 2008]);
    assert_eq!(full, "ab00".repeat(2008));
}

#[test]
fn digest_of_hex_decodes_then_hashes() {
    let digest = digest_of_hex("00ff", "AB10");
    assert_eq!(digest, sha(&[0x00, 0xff, 0xab, 0x10]));
    assert_eq!(digest_of_hex("", ""), sha(&[]));
}

#[test]
fn stage_one_hashes_data_and_empty_path() {
    let data = "0123456789abcdef00000001";
    let mut bytes = hex::decode(data).unwrap();
    bytes.extend(std::iter::repeat(0xffu8).take(2008 * 2));
    let digest = sha(&bytes);
    let seed = stage_one_hash(data);
    assert_eq!(seed.w0, u64::from_le_bytes(digest[0..8].try_into().unwrap()));
    assert_eq!(seed.w1, u64::from_le_bytes(digest[8..16].try_into().unwrap()));
    assert_eq!(seed.w2, u64::from_le_bytes(digest[16..24].try_into().unwrap()));
    assert_eq!(seed.w3, u64::from_le_bytes(digest[24..32].try_into().unwrap()));
    let reversed: Vec<u8> = digest.iter().rev().cloned().collect();
    let as_u256 = primitive_types::U256::from_str_radix(&hex::encode(reversed), 16).unwrap();
    assert_eq!(as_u256.0, [seed.w0, seed.w1, seed.w2, seed.w3]);
}

#[test]
fn seal_path_hashes_data_and_path() {
    let data = "deadbeef";
    let path: Vec<u16> = vec![0, 2, 1, 3];
    let (hash, path_hex) = seal_path(data, path);
    let expected_path = "0000".to_owned() + "0200" + "0100" + "0300" + &"ffff".repeat(2004);
    assert_eq!(path_hex, expected_path);
    let bytes = hex::decode(data.to_owned() + &expected_path).unwrap();
    let reversed: Vec<u8> = sha(&bytes).iter().rev().cloned().collect();
    assert_eq!(hash, hex::encode(reversed));
    assert_eq!(hash.len(), 64);
}

#[test]
fn attempt_is_a_function_of_its_text() {
    let data = "00112233445566778899aabbccddeeff0000002a";
    let mut first_util = HCGraphUtil::new(Some(4_000));
    let mut second_util = HCGraphUtil::new(Some(4_000));
    let first = compute_hash_no_vdf(data, &mut first_util);
    let second = compute_hash_no_vdf(data, &mut second_util);
    match (first, second) {
        (Some((hash_a, path_a)), Some((hash_b, path_b))) => {
            assert_eq!(hash_a, hash_b);
            assert_eq!(path_a, path_b);
            assert_eq!(hash_a.len(), 64);
            assert_eq!(path_a.len(), 8032);
            let bytes = hex::decode(data.to_owned() + &path_a).unwrap();
            let reversed: Vec<u8> = sha(&bytes).iter().rev().cloned().collect();
            assert_eq!(hash_a, hex::encode(reversed));
        }
        (None, _) => assert!(first_util.timed_out()),
        (_, None) => assert!(second_util.timed_out()),
    }
}

#[test]
fn nonce_is_eight_lower_case_hex_digits() {
    assert_eq!(format_nonce(0xdead_beef), "deadbeef");
    assert_eq!(format_nonce(0x1a), "0000001a");
    assert_eq!(format_nonce(0), "00000000");
    assert_eq!(format_nonce(u32::MAX), "ffffffff");
    assert_eq!(format_nonce(0x0102_0304), "01020304");
    for _ in 0..50 {
        let nonce = generate_nonce();
        assert_eq!(nonce.len(), 8);
        assert!(nonce.chars().all(|c| c.is_ascii_digit() || ('a'..='f').contains(&c)));
    }
}

#[test]
fn target_check_is_strict() {
    let low = "0000000000000000000000000000000000000000000000000000000000000001";
    let high = "0000000000000000000000000000000000000000000000000000000000000002";
    assert!(meets_target(low, high));
    assert!(!meets_target(high, low));
    assert!(!meets_target(low, low));
    let all_f = "f".repeat(64);
    assert!(meets_target(high, &all_f));
    assert!(!meets_target(&all_f, &all_f));
}

#[test]
fn target_check_reads_numbers_not_text() {
    assert!(meets_target("ff", "0100"));
    assert!(!meets_target("0100", "ff"));
    assert!(meets_target("0A", "0b"));
    assert!(meets_target("0x10", "11"));
    assert!(meets_target("", "1"));
    assert!(!meets_target("1", ""));
    assert!(meets_target("f", "10"));
}

#[test]
fn target_check_refuses_other_text() {
    assert_eq!(check_target("00", "01"), Some(true));
    assert_eq!(check_target("01", "01"), Some(false));
    assert_eq!(check_target("zz", "01"), None);
    assert_eq!(check_target("01", "0g"), None);
    assert_eq!(check_target(&"0".repeat(65), "01"), None);
    assert_eq!(check_target(&"f".repeat(64), &("0x".to_owned() + &"f".repeat(64))), Some(false));
    assert_eq!(check_target("0x", "1"), Some(true));
    assert_eq!(check_target("0x0x1", "1"), None);
}

#[test]
fn hex_text_is_recognised() {
    assert!(is_hex_text(""));
    assert!(is_hex_text("abcd"));
    assert!(is_hex_text("ABCDEF0123456789abcdef"));
    assert!(!is_hex_text("abc"));
    assert!(!is_hex_text("zz"));
    assert!(!is_hex_text("0x"));
    assert!(!is_hex_text("12 4"));
    assert!(!is_hex_text("\u{e9}\u{e9}"));
    assert!(!is_hex_text("1\u{ff11}"));
    assert!(!is_hex_text("g0"));
    assert!(!is_hex_text("/0"));
    assert!(!is_hex_text(":0"));
    assert!(!is_hex_text("@0"));
    assert!(!is_hex_text("`0"));
}

#[test]
fn open_target_admits_every_hash_but_the_largest() {
    let open = "f".repeat(64);
    let almost = "f".repeat(63) + "e";
    assert_eq!(check_target(&almost, &open), Some(true));
    assert_eq!(check_target(&("e".to_owned() + &"f".repeat(63)), &open), Some(true));
    assert_eq!(check_target(&"0".repeat(64), &open), Some(true));
    assert_eq!(check_target(&open, &open), Some(false));
    assert_eq!(check_target(&"F".repeat(64), &open), Some(false));
    assert!(meets_target(&almost, &open));
}
