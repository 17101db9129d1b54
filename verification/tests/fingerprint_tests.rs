use file_toolkit::fingerprint::{calculate_fast_hash, SAMPLE_SIZE, SMALL_FILE, THRESHOLD};
use file_toolkit::hex::to_hex16;
use xxhash_rust::xxh3::{xxh3_64, Xxh3};

fn patterned(len: usize, seed: u8) -> Vec<u8> {
    let mut data = Vec::with_capacity(len);
    let mut value = seed;
    for i in 0..len {
        value = value.wrapping_mul(31).wrapping_add((i % 251) as u8);
        data.push(value);
    }
    data
}

fn sampled_reference(data: &[u8], size: u64) -> String {
    let mut hasher = Xxh3::new();
    let len = data.len();
    hasher.update(&data[..SAMPLE_SIZE]);
    let mid = len / 2 - SAMPLE_SIZE / 2;
    hasher.update(&data[mid..mid + SAMPLE_SIZE]);
    hasher.update(&data[len - SAMPLE_SIZE..]);
    hasher.update(&size.to_le_bytes());
    format!("{:016x}", hasher.digest())
}

#[test]
fn hex_of_zero_is_sixteen_zeros() {
    assert_eq!(to_hex16(0), "0000000000000000");
}

#[test]
fn hex_is_lowercase_and_zero_padded() {
    assert_eq!(to_hex16(0xdead_beef), "00000000deadbeef");
    assert_eq!(to_hex16(0x0123_4567_89ab_cdef), "0123456789abcdef");
    assert_eq!(to_hex16(u64::MAX), "ffffffffffffffff");
}

#[test]
fn hex_agrees_with_std_formatting() {
    for value in [1u64, 15, 16, 255, 256, 0x8000_0000_0000_0000, 0x00ff_00ff_00ff_00ff] {
        assert_eq!(to_hex16(value), format!("{:016x}", value));
    }
}

#[test]
fn thresholds_are_one_and_ten_mebibytes() {
    assert_eq!(SMALL_FILE, 1024 * 1024);
    assert_eq!(THRESHOLD, 10 * 1024 * 1024);
    assert_eq!(SAMPLE_SIZE, 1024 * 1024);
}

#[test]
fn small_file_is_hashed_whole_in_one_shot() {
    let data = b"xxxxxxxxxx";
    let hash = calculate_fast_hash(data, 10);
    assert_eq!(hash, format!("{:016x}", xxh3_64(data)));
    assert_eq!(hash.len(), 16);
}

#[test]
fn empty_content_has_the_hash_of_no_bytes() {
    assert_eq!(calculate_fast_hash(&[], 0), format!("{:016x}", xxh3_64(&[])));
}

#[test]
fn fingerprint_is_not_the_input() {
    let a = calculate_fast_hash(b"xxxxxxxxxx", 10);
    let b = calculate_fast_hash(b"yyyyyyyyyy", 10);
    assert_ne!(a, b);
    assert!(a.chars().all(|c| c.is_ascii_digit() || ('a'..='f').contains(&c)));
}

#[test]
fn fingerprinting_is_deterministic() {
    let data = patterned(4096, 7);
    assert_eq!(calculate_fast_hash(&data, 4096), calculate_fast_hash(&data, 4096));
}

#[test]
fn file_of_exactly_one_mebibyte_is_hashed_in_one_shot() {
    let data = patterned(SMALL_FILE as usize, 3);
    assert_eq!(calculate_fast_hash(&data, SMALL_FILE), format!("{:016x}", xxh3_64(&data)));
}

#[test]
fn medium_file_is_streamed_whole() {
    let len = 2 * 1024 * 1024 + 17;
    let data = patterned(len, 11);
    let mut hasher = Xxh3::new();
    hasher.update(&data);
    assert_eq!(calculate_fast_hash(&data, len as u64), format!("{:016x}", hasher.digest()));
}

#[test]
fn medium_file_has_the_one_shot_hash_of_its_content() {
    let len = 3 * 1024 * 1024 + 5;
    let data = patterned(len, 17);
    assert_eq!(calculate_fast_hash(&data, len as u64), format!("{:016x}", xxh3_64(&data)));
    let at_threshold = patterned(THRESHOLD as usize, 19);
    assert_eq!(calculate_fast_hash(&at_threshold, THRESHOLD), format!("{:016x}", xxh3_64(&at_threshold)));
    // the recorded size selects the strategy only
    let short = patterned(300, 23);
    assert_eq!(calculate_fast_hash(&short, SMALL_FILE + 1), format!("{:016x}", xxh3_64(&short)));
    assert_eq!(calculate_fast_hash(&[], THRESHOLD), format!("{:016x}", xxh3_64(&[])));
}

#[test]
fn large_file_has_the_one_shot_hash_of_windows_and_size() {
    let len = 11 * 1024 * 1024 + 3;
    let data = patterned(len, 29);
    let mid = len / 2 - SAMPLE_SIZE / 2;
    let mut joined = Vec::new();
    joined.extend_from_slice(&data[..SAMPLE_SIZE]);
    joined.extend_from_slice(&data[mid..mid + SAMPLE_SIZE]);
    joined.extend_from_slice(&data[len - SAMPLE_SIZE..]);
    joined.extend_from_slice(&(len as u64).to_le_bytes());
    assert_eq!(calculate_fast_hash(&data, len as u64), format!("{:016x}", xxh3_64(&joined)));
}

#[test]
fn medium_file_depends_on_every_byte() {
    let len = SMALL_FILE as usize + 4096;
    let a = patterned(len, 5);
    let mut b = a.clone();
    b[len / 3] ^= 0x40;
    assert_ne!(calculate_fast_hash(&a, len as u64), calculate_fast_hash(&b, len as u64));
}

#[test]
fn file_at_the_threshold_is_still_hashed_whole() {
    let len = THRESHOLD as usize;
    let a = patterned(len, 9);
    let mut b = a.clone();
    b[3 * 1024 * 1024] ^= 1;
    let mut hasher = Xxh3::new();
    hasher.update(&a);
    assert_eq!(calculate_fast_hash(&a, THRESHOLD), format!("{:016x}", hasher.digest()));
    assert_ne!(calculate_fast_hash(&a, THRESHOLD), calculate_fast_hash(&b, THRESHOLD));
}

#[test]
fn large_file_is_sampled_in_three_windows_and_the_size() {
    let len = THRESHOLD as usize + 1;
    let data = patterned(len, 13);
    assert_eq!(calculate_fast_hash(&data, len as u64), sampled_reference(&data, len as u64));
}

#[test]
fn large_files_equal_in_the_windows_collide() {
    let len = 12 * 1024 * 1024;
    let a = patterned(len, 21);
    let mut b = a.clone();
    // between the head window and the middle window
    b[2 * 1024 * 1024] ^= 0xff;
    // between the middle window and the tail window
    b[9 * 1024 * 1024] ^= 0xff;
    assert_ne!(a, b);
    assert_eq!(calculate_fast_hash(&a, len as u64), calculate_fast_hash(&b, len as u64));
}

#[test]
fn large_files_differing_in_a_window_differ() {
    let len = 12 * 1024 * 1024;
    let a = patterned(len, 21);
    let mut head = a.clone();
    head[10] ^= 1;
    let mut middle = a.clone();
    middle[len / 2] ^= 1;
    let mut tail = a.clone();
    tail[len - 1] ^= 1;
    let base = calculate_fast_hash(&a, len as u64);
    assert_ne!(base, calculate_fast_hash(&head, len as u64));
    assert_ne!(base, calculate_fast_hash(&middle, len as u64));
    assert_ne!(base, calculate_fast_hash(&tail, len as u64));
}

#[test]
fn sampled_fingerprint_mixes_in_the_recorded_size() {
    let len = 12 * 1024 * 1024;
    let data = patterned(len, 2);
    let a = calculate_fast_hash(&data, len as u64);
    let b = calculate_fast_hash(&data, len as u64 + 1);
    assert_ne!(a, b);
    assert_eq!(b, sampled_reference(&data, len as u64 + 1));
}

#[test]
fn sampled_windows_may_overlap_in_a_file_of_one_window() {
    let data = patterned(SAMPLE_SIZE, 4);
    let size = THRESHOLD + 5;
    assert_eq!(calculate_fast_hash(&data, size), sampled_reference(&data, size));
}
