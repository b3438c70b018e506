//! Splits the request line held in the first 64-byte block of a request
//! buffer into method, path and version, and stores each at a fixed block
//! of the same buffer.
use vstd::prelude::*;

use crate::buffer::{overwritten, stored_cstr, Buffer};
use crate::utils::avx::search::{index_of, is_first_match, lemma_first_match_unique};
use crate::utils::bitmask::{
    eq_mask, has_bit, lemma_highest_bit, lemma_lowest_bit, lemma_no_bits_in_zero,
};
use crate::utils::simd::{
    move_left_zero_end, pad_left_zero, pad_right_zero, padded_left, padded_right,
};

verus! {

/// Block where the path is stored: byte 4096, half-way, so that it cannot
/// overlap the request being parsed in place.
pub const PATH_OFFSET: usize = 64;

/// Number of 64-byte blocks of a request buffer (8192 bytes).
pub const END: usize = 128;

/// Block where the method is stored: the last one.
pub const METHOD_OFFSET: usize = 127;

/// Block where the version is stored: the one before the last.
pub const VERSION_OFFSET: usize = 126;

/// Longest stored path, in blocks.
pub const MAX_PATH_BLOCKS: u32 = 62;

/// The byte that delimits method, path and version.
pub const SPACE: u8 = 32;

/// The byte that starts the line ending.
pub const CR: u8 = 13;

/// Which part of the request could not be delimited.
#[derive(Debug, Clone, Copy, PartialEq, Eq, Structural)]
pub enum ParseError {
    /// No space ends the method.
    Method,
    /// No second space ends the path.
    Path,
    /// A header line could not be delimited.
    Header,
    /// The request line does not end, CRLF included, within the first block.
    Unsupported,
}

/// Lane `i` of `v` is a space before the carriage return at `cr`.
pub open spec fn is_space(v: Seq<u8>, cr: int, i: int) -> bool {
    0 <= i < cr && v[i] == SPACE
}

pub open spec fn has_space(v: Seq<u8>, cr: int) -> bool {
    exists|i: int| #[trigger] is_space(v, cr, i)
}

/// The first space before `cr`.
pub open spec fn first_space(v: Seq<u8>, cr: int) -> int {
    choose|m: int| is_space(v, cr, m) && forall|i: int| 0 <= i < m ==> !#[trigger] is_space(v, cr, i)
}

/// The last space before `cr`.
pub open spec fn last_space(v: Seq<u8>, cr: int) -> int {
    choose|l: int| is_space(v, cr, l) && forall|i: int| l < i ==> !#[trigger] is_space(v, cr, i)
}

/// Bytes `[from, to)` of `v` moved to the front of a zeroed 64-byte block.
pub open spec fn field(v: Seq<u8>, from: int, to: int) -> Seq<u8> {
    Seq::new(64, |i: int| if from + i < to { v[from + i] } else { 0u8 })
}

/// What parsing the request line `v`, which ends at `cr`, yields.
pub open spec fn parse_result(v: Seq<u8>, cr: int) -> Result<usize, ParseError> {
    if !has_space(v, cr) {
        Err(ParseError::Method)
    } else if first_space(v, cr) == last_space(v, cr) {
        Err(ParseError::Path)
    } else {
        Ok((cr + 2) as usize)
    }
}

/// The buffer `s` after method, path and version of the request line `v`
/// are stored at their blocks.
pub open spec fn with_request_line(s: Seq<u8>, v: Seq<u8>, cr: int) -> Seq<u8> {
    let m = first_space(v, cr);
    let l = last_space(v, cr);
    let s1 = overwritten(s, METHOD_OFFSET * 64, field(v, 0, m));
    let s2 = overwritten(s1, PATH_OFFSET * 64, field(v, m + 1, l));
    overwritten(s2, VERSION_OFFSET * 64, field(v, l + 1, cr))
}

proof fn lemma_first_space(v: Seq<u8>, cr: int, m: int)
    requires
        is_space(v, cr, m),
        forall|i: int| 0 <= i < m ==> !#[trigger] is_space(v, cr, i),
    ensures
        first_space(v, cr) == m,
{
    let c = first_space(v, cr);
    assert(is_space(v, cr, c) && forall|i: int| 0 <= i < c ==> !#[trigger] is_space(v, cr, i));
    if c < m {
        assert(!is_space(v, cr, c));
    } else if m < c {
        assert(!is_space(v, cr, m));
    }
}

proof fn lemma_last_space(v: Seq<u8>, cr: int, l: int)
    requires
        is_space(v, cr, l),
        forall|i: int| l < i ==> !#[trigger] is_space(v, cr, i),
    ensures
        last_space(v, cr) == l,
{
    let c = last_space(v, cr);
    assert(is_space(v, cr, c) && forall|i: int| c < i ==> !#[trigger] is_space(v, cr, i));
    if c < l {
        assert(!is_space(v, cr, l));
    } else if l < c {
        assert(!is_space(v, cr, c));
    }
}

/// Parses the request line held in `vector`, which ends with the carriage
/// return at `cr`: the method runs to the first space, the path to the last
/// one, the version to `cr`. On success each is stored, zero-padded, at its
/// block and the length of the line with its CRLF is returned; on failure
/// nothing is stored.
pub fn parse_fast<const LEN: usize, const ALIGN: usize>(
    vector: [u8; 64],
    cr: usize,
    request: &mut Buffer<LEN, ALIGN>,
) -> (r: Result<usize, ParseError>)
    requires
        cr < 64,
        old(request)@.len() == LEN,
        LEN >= END * 64,
    ensures
        r == parse_result(vector@, cr as int),
        r is Ok ==> final(request)@ == with_request_line(old(request)@, vector@, cr as int),
        r is Err ==> final(request)@ == old(request)@,
{
    let ghost v = vector@;
    // fill data after CR with 0
    let vector = pad_right_zero(vector, cr);
    let mask = eq_mask(vector.as_slice(), 0, SPACE);
    proof {
        assert forall|k: u64| k < 64 implies #[trigger] has_bit(mask, k) == is_space(
            v,
            cr as int,
            k as int,
        ) by {
            assert(vector@[k as int] == padded_right(v, cr as int)[k as int]);
        }
    }
    if mask == 0 {
        proof {
            assert forall|i: int| !#[trigger] is_space(v, cr as int, i) by {
                if 0 <= i < cr {
                    lemma_no_bits_in_zero(i as u64);
                    assert(!has_bit(mask, i as u64));
                }
            }
        }
        return Err(ParseError::Method);
    }
    proof {
        lemma_lowest_bit(mask);
        lemma_highest_bit(mask);
    }
    let method_idx = mask.trailing_zeros() as usize;
    let path_end = 64 - mask.leading_zeros() as usize;
    proof {
        let m = method_idx as int;
        let l = path_end - 1;
        assert(has_bit(mask, m as u64));
        assert(has_bit(mask, l as u64));
        assert forall|i: int| 0 <= i < m implies !#[trigger] is_space(v, cr as int, i) by {
            assert(!has_bit(mask, i as u64));
        }
        assert forall|i: int| l < i implies !#[trigger] is_space(v, cr as int, i) by {
            if i < 64 {
                assert(!has_bit(mask, i as u64));
            }
        }
        lemma_first_space(v, cr as int, m);
        lemma_last_space(v, cr as int, l);
        assert(has_space(v, cr as int));
    }
    if path_end - 1 == method_idx {
        return Err(ParseError::Path);
    }
    // no more than 63 chars
    let method = pad_right_zero(vector, method_idx);
    let path = pad_right_zero(vector, path_end - 1);
    let path = move_left_zero_end(path, method_idx + 1);
    let version = move_left_zero_end(vector, path_end);
    proof {
        let m = method_idx as int;
        let l = path_end - 1;
        assert(method@ =~= field(v, 0, m));
        assert(path@ =~= field(v, m + 1, l));
        assert(version@ =~= field(v, l + 1, cr as int));
    }
    request.store_simd::<64>(METHOD_OFFSET, method);
    request.store_simd::<64>(PATH_OFFSET, path);
    request.store_simd::<64>(VERSION_OFFSET, version);
    Ok(cr + 2)
}

/// Parses the request line at the start of `request`, which must end,
/// CRLF included, within the first block. After the fields are stored the
/// line itself is zeroed, so that nothing later matches in it, and its
/// length is returned.
pub fn parse_request<const LEN: usize, const ALIGN: usize>(request: &mut Buffer<LEN, ALIGN>) -> (r:
    Result<usize, ParseError>)
    requires
        old(request)@.len() == LEN,
        LEN >= END * 64,
    ensures
        ({
            let v = old(request)@.subrange(0, 64);
            &&& (forall|c: int| 0 <= c < 63 ==> !#[trigger] is_first_match(v, seq![CR], c)) ==> r
                == Err::<usize, ParseError>(ParseError::Unsupported) && final(request)@ == old(
                request,
            )@
            &&& forall|c: int|
                0 <= c < 63 && #[trigger] is_first_match(v, seq![CR], c) ==> {
                    &&& r == parse_result(v, c)
                    &&& r is Ok ==> final(request)@ == overwritten(
                        with_request_line(old(request)@, v, c),
                        0,
                        padded_left(v, c + 2),
                    )
                    &&& r is Err ==> final(request)@ == old(request)@
                }
        }),
{
    let vector = request.load_simd::<64>(0);
    let cr = index_of(vector.as_slice(), CR);
    let ghost v = old(request)@.subrange(0, 64);
    proof {
        assert(vector@ == v);
        assert forall|c: int| 0 <= c < 63 && #[trigger] is_first_match(v, seq![CR], c) implies c
            == cr by {
            lemma_first_match_unique(v, seq![CR], c, cr as int);
        }
    }
    if cr >= 63 {
        return Err(ParseError::Unsupported);
    }
    let consumed = match parse_fast(vector, cr, request) {
        Ok(n) => n,
        Err(e) => {
            return Err(e);
        },
    };
    let vector = pad_left_zero(vector, consumed);
    // avoid match on consumed
    request.store_simd::<64>(0, vector);
    Ok(consumed)
}

/// Method, path and version as stored by `parse_request`.
pub struct RequestLine {
    pub method: Vec<u8>,
    pub path: Vec<u8>,
    pub version: Vec<u8>,
}

/// Reads back the fields that `parse_request` stored, each up to and
/// including its terminating zero byte.
pub fn read_request<const LEN: usize, const ALIGN: usize>(request: &Buffer<LEN, ALIGN>) -> (r:
    RequestLine)
    requires
        request@.len() == LEN,
        LEN >= END * 64,
    ensures
        r.method@ == stored_cstr(request@, METHOD_OFFSET * 64, 64),
        r.path@ == stored_cstr(request@, PATH_OFFSET * 64, MAX_PATH_BLOCKS * 64),
        r.version@ == stored_cstr(request@, VERSION_OFFSET * 64, 64),
{
    let method = request.load_cstr::<64>(METHOD_OFFSET as u32, 1);
    let path = request.load_cstr::<64>(PATH_OFFSET as u32, MAX_PATH_BLOCKS);
    let version = request.load_cstr::<64>(VERSION_OFFSET as u32, 1);
    RequestLine { method, path, version }
}

} // verus!
