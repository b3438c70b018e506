//! Header names folded to lowercase fixed-width keys, and a map from such
//! keys to header values.
use vstd::prelude::*;

use crate::utils::ascii::{ascii_lower, lowered, simd_lowercase};
use crate::utils::simd::aligned::{AlignedBlock, Aligned32};

verus! {

/// Width of a header key; longer names are cut to it.
pub const MAX_HEADER_KEY_LENGTH: usize = 32;

/// The key of the header name `name`: its first 32 bytes lowercased, then
/// zeros up to 32 bytes.
pub open spec fn header_key(name: Seq<u8>) -> Seq<u8> {
    Seq::new(
        MAX_HEADER_KEY_LENGTH as nat,
        |i: int| if i < name.len() { ascii_lower(name[i]) } else { 0u8 },
    )
}

/// Little-endian 64-bit word at byte `at` of `b`.
pub open spec fn le_word(b: Seq<u8>, at: int) -> u64 {
    (b[at] as u64) | ((b[at + 1] as u64) << 8u64) | ((b[at + 2] as u64) << 16u64) | ((b[at
        + 3] as u64) << 24u64) | ((b[at + 4] as u64) << 32u64) | ((b[at + 5] as u64) << 40u64)
        | ((b[at + 6] as u64) << 48u64) | ((b[at + 7] as u64) << 56u64)
}

/// Wrapping sum of the four little-endian words of a 32-byte key.
pub open spec fn key_hash(key: Seq<u8>) -> u64 {
    le_word(key, 0).wrapping_add(le_word(key, 8)).wrapping_add(le_word(key, 16)).wrapping_add(
        le_word(key, 24),
    )
}

/// A header name as a lowercased, zero-padded 32-byte key.
#[derive(Debug, Clone, Copy, Eq)]
pub struct AlignedHeaderKey(pub Aligned32);

/// Equal when the keys hold the same bytes.
impl PartialEq for AlignedHeaderKey {
    fn eq(&self, other: &Self) -> (r: bool) {
        self.0 == other.0
    }
}

impl vstd::std_specs::cmp::PartialEqSpecImpl for AlignedHeaderKey {
    open spec fn obeys_eq_spec() -> bool {
        true
    }

    open spec fn eq_spec(&self, other: &Self) -> bool {
        self.0.0@ == other.0.0@
    }
}

/// The key bytes.
impl core::ops::Deref for AlignedHeaderKey {
    type Target = [u8; MAX_HEADER_KEY_LENGTH];

    fn deref(&self) -> &[u8; MAX_HEADER_KEY_LENGTH] {
        &self.0.0
    }
}

impl AlignedHeaderKey {
    /// The key bytes.
    pub open spec fn bytes(&self) -> Seq<u8> {
        self.0.0@
    }

    /// The all-zero key.
    pub fn default() -> (r: Self)
        ensures
            r.bytes() == header_key(Seq::empty()),
    {
        let r = AlignedHeaderKey(AlignedBlock::default());
        assert(r.bytes() =~= header_key(Seq::empty()));
        r
    }

    /// The key of the header name `value`; bytes past the 32nd are cut.
    pub fn new(value: &[u8]) -> (r: Self)
        ensures
            r.bytes() == header_key(value@),
    {
        let n = if value.len() < MAX_HEADER_KEY_LENGTH {
            value.len()
        } else {
            MAX_HEADER_KEY_LENGTH
        };
        let mut key = [0u8; MAX_HEADER_KEY_LENGTH];
        let mut i: usize = 0;
        while i < n
            invariant
                n <= value.len(),
                n <= MAX_HEADER_KEY_LENGTH,
                i <= n,
                forall|j: int| 0 <= j < i ==> key[j] == value@[j],
                forall|j: int| i <= j < MAX_HEADER_KEY_LENGTH ==> key[j] == 0,
            decreases n - i,
        {
            key[i] = value[i];
            i = i + 1;
        }
        let lowered_key = simd_lowercase(key);
        let r = AlignedHeaderKey(AlignedBlock(lowered_key));
        assert(r.bytes() =~= header_key(value@));
        r
    }
}

/// Keys whose names differ in ASCII case only are the same key.
pub proof fn lemma_header_key_case_insensitive(a: Seq<u8>, b: Seq<u8>)
    requires
        lowered(a) == lowered(b),
    ensures
        header_key(a) == header_key(b),
{
    assert(a.len() == lowered(a).len() && b.len() == lowered(b).len());
    assert forall|i: int| 0 <= i < MAX_HEADER_KEY_LENGTH implies #[trigger] header_key(a)[i]
        == header_key(b)[i] by {
        if i < a.len() {
            assert(lowered(a)[i] == ascii_lower(a[i]));
            assert(lowered(b)[i] == ascii_lower(b[i]));
            assert(lowered(a)[i] == lowered(b)[i]);
        }
    }
    assert(header_key(a) =~= header_key(b));
}

/// Running state of the key hash.
#[derive(Debug, Clone, Copy, PartialEq, Eq, Structural)]
pub struct HeaderHasher(pub u64);

impl HeaderHasher {
    pub fn default() -> (r: Self)
        ensures
            r.0 == 0,
    {
        HeaderHasher(0)
    }

    /// Adds the four little-endian words of a 32-byte key, wrapping.
    pub fn write(&mut self, bytes: &[u8; MAX_HEADER_KEY_LENGTH])
        ensures
            final(self).0 == key_hash(bytes@).wrapping_add(old(self).0),
    {
        let mut sum: u64 = 0;
        let mut at: usize = 0;
        while at < MAX_HEADER_KEY_LENGTH
            invariant
                at % 8 == 0,
                at <= MAX_HEADER_KEY_LENGTH,
                at == 0 ==> sum == 0,
                at == 8 ==> sum == le_word(bytes@, 0),
                at == 16 ==> sum == le_word(bytes@, 0).wrapping_add(le_word(bytes@, 8)),
                at == 24 ==> sum == le_word(bytes@, 0).wrapping_add(le_word(bytes@, 8)).wrapping_add(
                    le_word(bytes@, 16),
                ),
                at == 32 ==> sum == key_hash(bytes@),
            decreases MAX_HEADER_KEY_LENGTH - at,
        {
            let word = (bytes[at] as u64) | ((bytes[at + 1] as u64) << 8u64) | ((bytes[at
                + 2] as u64) << 16u64) | ((bytes[at + 3] as u64) << 24u64) | ((bytes[at
                + 4] as u64) << 32u64) | ((bytes[at + 5] as u64) << 40u64) | ((bytes[at
                + 6] as u64) << 48u64) | ((bytes[at + 7] as u64) << 56u64);
            assert(word == le_word(bytes@, at as int));
            if at == 0 {
                sum = word;
            } else {
                sum = sum.wrapping_add(word);
            }
            at = at + 8;
        }
        self.0 = sum.wrapping_add(self.0);
    }

    pub fn finish(&self) -> (r: u64)
        ensures
            r == self.0,
    {
        self.0
    }
}

/// A key, borrowed, together with its hash.
struct CustomHash<'a>(&'a AlignedHeaderKey);

impl<'a> CustomHash<'a> {
    fn new(bytes: &'a AlignedHeaderKey) -> (r: Self)
        ensures
            r.0 == bytes,
    {
        CustomHash(bytes)
    }

    /// The key's hash, from a fresh hasher.
    fn hash_value(&self) -> (r: u64)
        ensures
            r == key_hash(self.0.bytes()),
    {
        let mut hasher = HeaderHasher::default();
        hasher.write(&self.0.0.0);
        hasher.finish()
    }
}

struct HeaderEntry<'a> {
    hash: u64,
    key: AlignedHeaderKey,
    value: &'a [u8],
}

/// Header values by key; a key's case was folded when it was made, so
/// lookups ignore the case of header names.
pub struct HeaderMap<'a> {
    headers: Vec<HeaderEntry<'a>>,
    contents: Ghost<Map<Seq<u8>, Seq<u8>>>,
}

impl<'a> View for HeaderMap<'a> {
    type V = Map<Seq<u8>, Seq<u8>>;

    closed spec fn view(&self) -> Map<Seq<u8>, Seq<u8>> {
        self.contents@
    }
}

impl<'a> HeaderMap<'a> {
    /// No two entries share a key, each entry's hash is its key's hash, and
    /// the entries are exactly the contents.
    pub closed spec fn wf(&self) -> bool {
        let h = self.headers@;
        &&& forall|i: int, j: int|
            0 <= i < j < h.len() ==> #[trigger] h[i].key.bytes() != #[trigger] h[j].key.bytes()
        &&& forall|i: int| 0 <= i < h.len() ==> #[trigger] h[i].hash == key_hash(h[i].key.bytes())
        &&& forall|i: int|
            0 <= i < h.len() ==> self.contents@.contains_key(#[trigger] h[i].key.bytes())
                && self.contents@[h[i].key.bytes()] == h[i].value@
        &&& forall|k: Seq<u8>|
            #[trigger] self.contents@.contains_key(k) ==> exists|i: int|
                0 <= i < h.len() && #[trigger] h[i].key.bytes() == k
    }

    pub fn new() -> (r: Self)
        ensures
            r.wf(),
            r@ == Map::<Seq<u8>, Seq<u8>>::empty(),
    {
        HeaderMap { headers: Vec::new(), contents: Ghost(Map::empty()) }
    }

    /// Index of the entry with key `key`, if there is one.
    fn position(&self, key: &AlignedHeaderKey, hash: u64) -> (r: Option<usize>)
        requires
            self.wf(),
            hash == key_hash(key.bytes()),
        ensures
            match r {
                Some(i) => i < self.headers@.len() && self.headers@[i as int].key.bytes()
                    == key.bytes(),
                None => !self@.contains_key(key.bytes()),
            },
    {
        let mut i: usize = 0;
        while i < self.headers.len()
            invariant
                self.wf(),
                hash == key_hash(key.bytes()),
                i <= self.headers@.len(),
                forall|j: int| 0 <= j < i ==> self.headers@[j].key.bytes() != key.bytes(),
            decreases self.headers@.len() - i,
        {
            let entry = &self.headers[i];
            if entry.hash == hash && entry.key == *key {
                return Some(i);
            }
            i = i + 1;
        }
        None
    }

    /// Stores `value` under `key`, replacing what was stored under it.
    pub fn insert(&mut self, key: &'a AlignedHeaderKey, value: &'a [u8])
        requires
            old(self).wf(),
        ensures
            final(self).wf(),
            final(self)@ == old(self)@.insert(key.bytes(), value@),
    {
        let hash = CustomHash::new(key).hash_value();
        let entry = HeaderEntry { hash, key: *key, value };
        let ghost k = key.bytes();
        match self.position(key, hash) {
            Some(i) => {
                self.headers.set(i, entry);
                self.contents = Ghost(self.contents@.insert(k, value@));
                proof {
                    let h = self.headers@;
                    assert forall|q: Seq<u8>| #[trigger]
                        self.contents@.contains_key(q) implies exists|j: int|
                        0 <= j < h.len() && #[trigger] h[j].key.bytes() == q by {
                        if q == k {
                            assert(h[i as int].key.bytes() == q);
                        } else {
                            let j = choose|j: int|
                                0 <= j < old(self).headers@.len()
                                    && #[trigger] old(self).headers@[j].key.bytes() == q;
                            assert(h[j].key.bytes() == q);
                        }
                    }
                }
            },
            None => {
                self.headers.push(entry);
                self.contents = Ghost(self.contents@.insert(k, value@));
                proof {
                    let h = self.headers@;
                    let n = (h.len() - 1) as int;
                    assert forall|q: Seq<u8>| #[trigger]
                        self.contents@.contains_key(q) implies exists|j: int|
                        0 <= j < h.len() && #[trigger] h[j].key.bytes() == q by {
                        if q == k {
                            assert(h[n].key.bytes() == q);
                        } else {
                            let j = choose|j: int|
                                0 <= j < old(self).headers@.len()
                                    && #[trigger] old(self).headers@[j].key.bytes() == q;
                            assert(h[j].key.bytes() == q);
                        }
                    }
                    assert forall|a: int, b: int|
                        0 <= a < b < h.len() implies #[trigger] h[a].key.bytes()
                        != #[trigger] h[b].key.bytes() by {
                        if b == n {
                            assert(old(self)@.contains_key(h[a].key.bytes()));
                        }
                    }
                }
            },
        }
    }

    /// The value stored under `key`, if any.
    pub fn get(&self, key: &AlignedHeaderKey) -> (r: Option<&[u8]>)
        requires
            self.wf(),
        ensures
            r is Some <==> self@.contains_key(key.bytes()),
            r matches Some(v) ==> v@ == self@[key.bytes()],
    {
        let hash = CustomHash::new(key).hash_value();
        match self.position(key, hash) {
            Some(i) => Some(self.headers[i].value),
            None => None,
        }
    }
}

/// After a header is stored under one spelling of its name, every spelling
/// that differs from it in ASCII case only finds it.
pub proof fn lemma_lookup_ignores_case(
    m: Map<Seq<u8>, Seq<u8>>,
    stored_name: Seq<u8>,
    asked_name: Seq<u8>,
    value: Seq<u8>,
)
    requires
        lowered(stored_name) == lowered(asked_name),
    ensures
        m.insert(header_key(stored_name), value).contains_key(header_key(asked_name)),
        m.insert(header_key(stored_name), value)[header_key(asked_name)] == value,
{
    lemma_header_key_case_insensitive(stored_name, asked_name);
}

} // verus!
