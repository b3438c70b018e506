use simd_http::buffer::BufferSlice;
use simd_http::utils::avx::search::{avx_search, index_of, index_of2, search};

fn filler(len: usize) -> Vec<u8> {
    // bytes from a small alphabet that every needle below avoids in part
    let mut state: u32 = 12345;
    (0..len)
        .map(|_| {
            state = state.wrapping_mul(1103515245).wrapping_add(12345);
            b"abcdefgh"[((state >> 16) % 8) as usize]
        })
        .collect()
}

fn needle_of(len: usize) -> Vec<u8> {
    (0..len).map(|i| b"-origin\r\nSec-Fetch-Mode: cors\r\nSec-Fetch-Dest: empty\r\nSec-Fetch-User: ?1"[i % 70]).collect()
}

#[test]
fn kernels_agree_with_memmem_for_every_length() {
    for n in 1..=65usize {
        let needle = needle_of(n);
        for &at in &[0usize, 1, 31, 62, 63, 64, 65, 127, 128, 500, 1024 - n] {
            let mut hay = filler(1024);
            hay[at..at + n].copy_from_slice(&needle);
            let expected = memchr::memmem::find(&hay, &needle).unwrap_or(hay.len());
            assert_eq!(search(&hay, &needle), expected, "length {} at {}", n, at);
            assert_eq!(expected, at);
        }
        let hay = filler(1024);
        assert_eq!(search(&hay, &needle), 1024, "absent needle of length {}", n);
    }
}

#[test]
fn kernels_find_the_first_of_two_occurrences() {
    for n in 1..=65usize {
        let needle = needle_of(n);
        let mut hay = filler(1024);
        hay[700..700 + n].copy_from_slice(&needle);
        hay[200..200 + n].copy_from_slice(&needle);
        assert_eq!(search(&hay, &needle), 200);
    }
}

#[test]
fn partial_needle_at_end_is_not_a_match() {
    let needle = needle_of(20);
    let mut hay = filler(256);
    hay[246..256].copy_from_slice(&needle[..10]);
    assert_eq!(search(&hay, &needle), 256);
}

#[test]
fn long_needle_falls_back_to_memmem() {
    let needle = needle_of(70);
    let mut hay = filler(1024);
    hay[333..403].copy_from_slice(&needle);
    assert_eq!(search(&hay, &needle), 333);
    assert_eq!(search(&filler(1024), &needle), 1024);
}

#[test]
fn empty_needle_matches_at_zero() {
    assert_eq!(search(b"abc", b""), 0);
}

#[test]
fn const_sized_needles() {
    let data: &[u8] = b"HTTP/1.1\r\nHost: developer.mozilla.org\r\nAccept-Language: fr\r\nUser-Agent: curl/7.64.1\r\nAccept: */*\r\n\r\n";
    let buffer = BufferSlice::<1024, 4096>::from_slice(data);
    assert_eq!(avx_search(&buffer, b"\r\n"), 8);
    assert_eq!(avx_search(&buffer, b"Host"), 10);
    assert_eq!(avx_search(&buffer, b"Accept:"), 85);
    assert_eq!(avx_search(&buffer, b"curl/7.64.1"), 72);
    assert_eq!(avx_search(&buffer, b"zzz"), buffer.len());
}

#[test]
fn single_byte_search() {
    let mut hay = vec![b'a'; 300];
    assert_eq!(index_of(&hay, b'x'), 300);
    hay[130] = b'x';
    hay[250] = b'x';
    assert_eq!(index_of(&hay, b'x'), 130);
    assert_eq!(index_of(&[], b'x'), 0);
}

#[test]
fn two_byte_search_carries_across_blocks() {
    let mut hay = vec![b'a'; 200];
    hay[63] = b'\r';
    hay[64] = b'\n';
    assert_eq!(index_of2(&hay, b"\r\n"), 63);
    let mut hay = vec![b'a'; 200];
    hay[127] = b'\r';
    hay[150] = b'\n';
    assert_eq!(index_of2(&hay, b"\r\n"), 200);
    hay[199] = b'\r';
    assert_eq!(index_of2(&hay, b"\r\n"), 200);
    hay[0] = b'\r';
    hay[1] = b'\n';
    assert_eq!(index_of2(&hay, b"\r\n"), 0);
}
