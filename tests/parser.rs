use simd_http::buffer::{Buffer, BufferSlice};
use simd_http::parser::{parse_fast, parse_request, read_request, ParseError};

fn request_buffer(bytes: &[u8]) -> Buffer<8192, 4096> {
    BufferSlice::<8192, 4096>::from_slice(bytes).into_inner()
}

#[test]
fn request_line_is_split_and_stored() {
    let mut buffer = request_buffer(b"GET /index.html HTTP/1.1\r\nHost: developer.mozilla.org\r\n\r\n");
    assert_eq!(parse_request(&mut buffer), Ok(26));
    let line = read_request(&buffer);
    assert_eq!(line.method, b"GET\0".to_vec());
    assert_eq!(line.path, b"/index.html\0".to_vec());
    assert_eq!(line.version, b"HTTP/1.1\0".to_vec());
    // the request line itself was cleared, the headers kept
    let first = buffer.load_simd::<64>(0);
    assert!(first[..26].iter().all(|&b| b == 0));
    assert_eq!(first[26..30], *b"Host");
}

#[test]
fn missing_space_is_a_method_error() {
    let mut buffer = request_buffer(b"GET\r\n");
    assert_eq!(parse_request(&mut buffer), Err(ParseError::Method));
    assert_eq!(buffer.load_simd::<64>(0)[..3], *b"GET");
}

#[test]
fn single_space_is_a_path_error() {
    let mut buffer = request_buffer(b"GET /\r\n");
    assert_eq!(parse_request(&mut buffer), Err(ParseError::Path));
}

#[test]
fn long_request_line_is_unsupported() {
    let mut line = b"GET /".to_vec();
    line.extend(std::iter::repeat(b'a').take(70));
    line.extend_from_slice(b" HTTP/1.1\r\n");
    let mut buffer = request_buffer(&line);
    assert_eq!(parse_request(&mut buffer), Err(ParseError::Unsupported));
    let mut buffer = request_buffer(b"");
    assert_eq!(parse_request(&mut buffer), Err(ParseError::Unsupported));
}

#[test]
fn fast_path_on_a_vector() {
    let mut vector = [0u8; 64];
    vector[..16].copy_from_slice(b"POST /a HTTP/1.0");
    vector[16] = b'\r';
    let mut buffer = Buffer::<8192, 4096>::allocate();
    assert_eq!(parse_fast(vector, 16, &mut buffer), Ok(18));
    let line = read_request(&buffer);
    assert_eq!(line.method, b"POST\0".to_vec());
    assert_eq!(line.path, b"/a\0".to_vec());
    assert_eq!(line.version, b"HTTP/1.0\0".to_vec());
}
