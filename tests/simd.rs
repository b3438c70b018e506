use simd_http::utils::ascii::simd_lowercase;
use simd_http::utils::avx::{decrement_u8, increment_u8, mask_false16, mask_false64, mask_false_i8x8};
use simd_http::utils::simd::aligned::{Aligned, Aligned16, Aligned32, Aligned64};
use simd_http::utils::simd::{mask_false, move_left_zero_end, pad_left_zero, pad_right_zero, start_with};

const DATA: [u8; 32] = *b"HTTP/1.1\r\nHost: developer.mozill";

#[test]
fn left_pad_zeroes_prefix() {
    let result = pad_left_zero(DATA, 16);
    assert_eq!(result[..16], [0; 16]);
    assert_eq!(result[16..], DATA[16..]);
    for k in 0..=32 {
        let r = pad_left_zero(DATA, k);
        assert!(r[..k].iter().all(|&b| b == 0));
        assert_eq!(r[k..], DATA[k..]);
    }
}

#[test]
fn right_pad_keeps_prefix() {
    for k in 0..=32 {
        let r = pad_right_zero(DATA, k);
        assert_eq!(r[..k], DATA[..k]);
        assert!(r[k..].iter().all(|&b| b == 0));
    }
    assert_eq!(pad_right_zero(DATA, 4)[..6], *b"HTTP\0\0");
}

#[test]
fn shift_left_drops_prefix_and_fills_zero() {
    for k in 0..=32 {
        let r = move_left_zero_end(DATA, k);
        for i in 0..32 {
            let expected = if i + k < 32 { DATA[i + k] } else { 0 };
            assert_eq!(r[i], expected);
        }
    }
    assert_eq!(move_left_zero_end(DATA, 10)[..4], *b"Host");
}

#[test]
fn mask_false_lanes() {
    let m: [bool; 16] = mask_false(5);
    assert_eq!(m.iter().filter(|&&b| !b).count(), 5);
    assert!(!m[4] && m[5]);
    let m: [bool; 16] = mask_false(16);
    assert!(m.iter().all(|&b| !b));
}

#[test]
fn start_with_checks_first_difference() {
    let mut needle = DATA;
    assert!(!start_with(DATA, needle, 4));
    needle[4] = b'X';
    assert!(start_with(DATA, needle, 4));
    assert!(!start_with(DATA, needle, 5));
    let a = [7u8; 64];
    assert!(start_with(a, a, 64));
}

#[test]
fn lowercase_every_byte() {
    let mut all = [0u8; 64];
    for chunk in 0..4u8 {
        for i in 0..64u8 {
            all[i as usize] = chunk * 64 + i;
        }
        let lowered = simd_lowercase(all);
        for i in 0..64 {
            let b = all[i];
            let expected = if b.is_ascii_uppercase() { b + 32 } else { b };
            assert_eq!(lowered[i], expected);
            assert_eq!(lowered[i], b.to_ascii_lowercase());
        }
        assert_eq!(simd_lowercase(lowered), lowered);
    }
    assert_eq!(simd_lowercase(*b"User-AGENT: X\xc4Z"), *b"user-agent: x\xc4z");
}

#[test]
fn avx_masks() {
    assert_eq!(mask_false64(0), u64::MAX);
    assert_eq!(mask_false64(3), !7u64);
    assert_eq!(mask_false64(63), 1u64 << 63);
    assert_eq!(mask_false16(4), 0xFFF0);
    assert_eq!(mask_false_i8x8(0), 0);
    assert_eq!(mask_false_i8x8(3), 0xFF_FFFF);
    assert_eq!(mask_false_i8x8(7), 0xFF_FFFF_FFFF_FFFF);
}

#[test]
fn lane_sequences() {
    let inc = increment_u8();
    let dec = decrement_u8();
    for i in 0..64 {
        assert_eq!(inc[i] as usize, i);
        assert_eq!(dec[i] as usize, 63 - i);
    }
}

#[test]
fn aligned_blocks() {
    let a = Aligned32::from_slice(b"abc");
    assert_eq!(a.0[..4], *b"abc\0");
    assert!(a == Aligned32::from_slice(b"abc"));
    assert!(a != Aligned32::from_slice(b"abd"));
    assert!(a < Aligned32::from_slice(b"abd"));
    assert_eq!(Aligned16::default().to_simd(), [0u8; 16]);
    let mut b = Aligned64::default();
    b.store_vector([9u8; 64]);
    assert_eq!(b.load_vector(), [9u8; 64]);
    assert_eq!(Aligned::Aligned64(b), Aligned::Aligned64(Aligned64::from_slice(&[9u8; 64])));
}

#[test]
fn masked_search_in_one_vector() {
    let mut vector = [b'.'; 64];
    vector[10..14].copy_from_slice(b"GETX");
    vector[40..43].copy_from_slice(b"GET");
    let all: [bool; 3] = [true; 3];
    assert_eq!(simd_http::utils::simd::index_of(vector, *b"GET", all), 10);
    // lanes left out of the mask always agree
    let first_two = [true, true, false];
    assert_eq!(simd_http::utils::simd::index_of(vector, *b"GEZ", first_two), 10);
    assert_eq!(simd_http::utils::simd::index_of(vector, *b"GEZ", all), 64);
    // a needle that would run past the last lane does not match
    let mut tail = [b'.'; 16];
    tail[14..16].copy_from_slice(b"GE");
    assert_eq!(simd_http::utils::simd::index_of(tail, *b"GET", all), 16);
}

#[test]
fn block_from_lanes() {
    let block = Aligned16::from(*b"0123456789abcdef");
    assert_eq!(block.to_simd(), *b"0123456789abcdef");
    assert_eq!(block[3], b'3');
}
