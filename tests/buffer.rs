use simd_http::buffer::buffer_pool::BufferPool;
use simd_http::buffer::{Buffer, BufferError, BufferSlice};

#[test]
fn test_pre_allocate() {
    let mut pool = BufferPool::new4k::<8192>();
    pool.pre_allocate(10);
    assert_eq!(pool.buffer().len(), 10);
}

#[test]
fn pre_allocated_takes_do_not_allocate() {
    let mut pool = BufferPool::<4096, 4096>::default();
    pool.pre_allocate(10);
    assert_eq!(pool.allocation_count(), 10);
    let mut taken = Vec::new();
    for _ in 0..10 {
        taken.push(pool.take());
    }
    assert_eq!(pool.allocation_count(), 10);
    assert_eq!(pool.buffer().len(), 0);
    let _fresh = pool.take();
    assert_eq!(pool.allocation_count(), 11);
    pool.pre_allocate(3);
    pool.pre_allocate(2);
    assert_eq!(pool.buffer().len(), 3);
    assert_eq!(pool.allocation_count(), 14);
}

#[test]
fn put_then_take_keeps_contents() {
    let mut pool = BufferPool::<128, 64>::default();
    let mut b = pool.take();
    b.fill(0xAB);
    pool.put(b);
    let again = pool.take();
    assert_eq!(pool.allocation_count(), 1);
    assert_eq!(again.load_simd::<64>(1), [0xAB; 64]);
}

#[test]
fn copy_round_trip() {
    let data: Vec<u8> = (1..=100u8).collect();
    let mut b = Buffer::<64, 64>::allocate();
    b.copy_from_slice(&data);
    assert_eq!(b.load_simd::<64>(0)[..], data[..64]);
    let mut b = Buffer::<256, 64>::allocate();
    b.copy_from_slice(&data);
    let mut read = Vec::new();
    for block in 0..4 {
        read.extend_from_slice(&b.load_simd::<64>(block));
    }
    assert_eq!(read[..100], data[..]);
    assert!(read[100..].iter().all(|&x| x == 0));
}

#[test]
fn slice_from_bytes() {
    let s = BufferSlice::<64, 64>::from_slice(b"hello");
    assert_eq!(s.len(), 5);
    assert_eq!(s.offset(), 0);
    assert_eq!(s.capacity(), 64);
    assert_eq!(&s[..], b"hello");
    assert_eq!(s.as_str(), "hello");
    let long = [b'x'; 100];
    let s = BufferSlice::<64, 64>::from_slice(&long);
    assert_eq!(s.len(), 64);
    let mut s = Buffer::<64, 64>::allocate().slice(10);
    assert_eq!(s.len(), 54);
    s.set_len(3);
    assert_eq!(s.as_slice(), &[0, 0, 0]);
    assert_eq!(s.into_inner().load_simd::<64>(0), [0u8; 64]);
}

#[test]
fn lossy_text() {
    let s = BufferSlice::<64, 64>::from_slice(b"ok\xFFok");
    assert_eq!(s.as_str(), "ok\u{FFFD}ok");
}

#[test]
fn zero_capacity_is_refused() {
    assert!(matches!(Buffer::<0, 64>::try_allocate(), Err(BufferError::NoCapacity)));
    assert!(Buffer::<8, 64>::try_allocate().is_ok());
}

#[test]
fn fill_store_and_cstrings() {
    let mut b = Buffer::<256, 4096>::allocate4k();
    b.fill(b'a');
    assert_eq!(b.cstr_len::<64>(0, 4), 256);
    assert_eq!(b.load_cstr::<64>(1, 2), vec![b'a'; 128]);
    let mut block = [b'b'; 64];
    block[5] = 0;
    b.store_simd::<64>(2, block);
    assert_eq!(b.cstr_len::<64>(0, 4), 133);
    assert_eq!(b.cstr_len::<64>(2, 1), 5);
    assert_eq!(b.load_cstr::<64>(2, 2), b"bbbbb\0".to_vec());
    assert_eq!(b.load_simd::<16>(9), [b'b'; 16]);
}

#[test]
fn alignment_class_can_shrink() {
    let mut b = Buffer::<64, 4096>::allocate4k();
    b.fill(3);
    let b: Buffer<64, 64> = b.with_alignment::<64>();
    assert_eq!(b.load_simd::<64>(0), [3u8; 64]);
}

#[test]
fn values_that_fit() {
    let b = Buffer::<64, 64>::allocate();
    assert_eq!(b.ptr_size::<u32>(), 16);
    assert_eq!(b.ptr_size::<[u8; 3]>(), 21);
}
