use simd_http::buffer::BufferSlice;
use simd_http::utils::simd::iter::SimdFindIter;

#[test]
fn test() {
    let needle = b"hello";
    let haystack = BufferSlice::<4096, 4096>::from_slice(b"hello world hello world hello world");
    let mut iter = SimdFindIter::new(&haystack, needle);
    assert_eq!(iter.next(), Some(0));
    assert_eq!(iter.next(), Some(12));
    assert_eq!(iter.next(), Some(24));
    assert_eq!(iter.next(), None);
}

#[test]
fn exhausted_iterator_stays_exhausted() {
    let haystack = BufferSlice::<4096, 4096>::from_slice(b"hello world hello world hello world");
    let mut iter = SimdFindIter::new(&haystack, b"hello");
    let found: Vec<usize> = (0..3).map(|_| iter.next().unwrap()).collect();
    assert_eq!(found, vec![0, 12, 24]);
    assert_eq!(iter.next(), None);
    assert_eq!(iter.next(), None);
    assert_eq!(iter.next(), None);
}

#[test]
fn overlapping_and_cross_block_matches() {
    let mut hay = vec![b'.'; 200];
    hay[10..14].copy_from_slice(b"aaaa");
    hay[62..66].copy_from_slice(b"abab");
    hay[190..193].copy_from_slice(b"aaa");
    let mut iter = SimdFindIter::new(&hay, b"aa");
    let mut found = Vec::new();
    while let Some(p) = iter.next() {
        found.push(p);
    }
    assert_eq!(found, vec![10, 11, 12, 190, 191]);
    let mut iter = SimdFindIter::new(&hay, b"ab");
    assert_eq!(iter.next(), Some(62));
    assert_eq!(iter.next(), Some(64));
    assert_eq!(iter.next(), None);
}

#[test]
fn needle_cut_by_end_is_not_found() {
    let hay = b"xxxxhell";
    let mut iter = SimdFindIter::new(hay, b"hello");
    assert_eq!(iter.next(), None);
}
