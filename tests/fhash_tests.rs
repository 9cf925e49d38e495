use videoinfo::fhash::{
    digest_to_fingerprint, fingerprint_of_content, fingerprint_of_samples, sample_plan, SAMPLE_SIZE,
};

fn windows(size: u64, sample: u64) -> Vec<(u64, u64)> {
    sample_plan(size, sample).iter().map(|w| (w.offset, w.len)).collect()
}

fn bytes(n: usize, seed: u32) -> Vec<u8> {
    let mut v = Vec::with_capacity(n);
    let mut x = seed;
    for _ in 0..n {
        x = x.wrapping_mul(1103515245).wrapping_add(12345);
        v.push((x >> 16) as u8);
    }
    v
}

#[test]
fn small_file_is_one_window() {
    assert_eq!(windows(2048, SAMPLE_SIZE), vec![(0, 2048)]);
    assert_eq!(windows(0, SAMPLE_SIZE), vec![(0, 0)]);
    assert_eq!(windows(SAMPLE_SIZE, SAMPLE_SIZE), vec![(0, SAMPLE_SIZE)]);
}

#[test]
fn large_file_has_three_windows() {
    let m = SAMPLE_SIZE;
    assert_eq!(windows(3 * m, m), vec![(0, m), (m, m), (2 * m, m)]);
    assert_eq!(windows(m + 1, m), vec![(0, m), (0, m), (1, m)]);
    assert_eq!(windows(m + 2, m), vec![(0, m), (1, m), (2, m)]);
}

#[test]
fn windows_stay_inside_file() {
    for size in [0u64, 1, 10, 99, 100, 101, 150, 199, 200, 201, 1000] {
        for (o, l) in windows(size, 100) {
            assert!(o + l <= size);
        }
    }
}

#[test]
fn two_kib_file_is_hashed_whole_once() {
    let data = bytes(2048, 7);
    let expected = xxhash_rust::xxh3::xxh3_128(&data).to_string();
    assert_eq!(fingerprint_of_content(&data, SAMPLE_SIZE), expected);
    assert_eq!(fingerprint_of_content(&data, SAMPLE_SIZE), fingerprint_of_content(&data, SAMPLE_SIZE));
}

#[test]
fn identical_bytes_give_identical_fingerprints() {
    let a = bytes(5000, 3);
    let b = a.clone();
    assert_eq!(fingerprint_of_content(&a, 1000), fingerprint_of_content(&b, 1000));
    let mut c = a.clone();
    c[0] ^= 1;
    assert_ne!(fingerprint_of_content(&a, 1000), fingerprint_of_content(&c, 1000));
}

#[test]
fn bytes_outside_windows_do_not_count() {
    let a = bytes(5000, 11);
    let mut b = a.clone();
    // windows of 1000 bytes at 0, 2000 and 4000: byte 1500 is not sampled
    b[1500] ^= 0xff;
    assert_eq!(fingerprint_of_content(&a, 1000), fingerprint_of_content(&b, 1000));
}

#[test]
fn samples_read_in_plan_order_match_content() {
    let data = bytes(10_000, 5);
    let samples: Vec<Vec<u8>> = sample_plan(data.len() as u64, 3000)
        .iter()
        .map(|w| data[w.offset as usize..(w.offset + w.len) as usize].to_vec())
        .collect();
    assert_eq!(samples.len(), 3);
    assert_eq!(fingerprint_of_samples(&samples), fingerprint_of_content(&data, 3000));
    let joined: Vec<u8> = samples.concat();
    assert_eq!(fingerprint_of_samples(&samples), xxhash_rust::xxh3::xxh3_128(&joined).to_string());
}

#[test]
fn digest_is_rendered_in_decimal() {
    assert_eq!(digest_to_fingerprint(0), "0");
    assert_eq!(digest_to_fingerprint(9), "9");
    assert_eq!(digest_to_fingerprint(10), "10");
    assert_eq!(digest_to_fingerprint(1234567890), "1234567890");
    assert_eq!(digest_to_fingerprint(u128::MAX), "340282366920938463463374607431768211455");
}
