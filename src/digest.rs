//! The content hash that binds a ciphertext to its metadata: SHA-256,
//! written as lower-case hexadecimal.

use vstd::prelude::*;
use vstd::string::StringExecFns;

verus! {

/// The SHA-256 digest of a byte sequence.
pub uninterp spec fn sha256_of(data: Seq<u8>) -> Seq<u8>;

/// The bytes that a running SHA-256 hasher has been fed so far.
pub uninterp spec fn hashed_bytes(h: ContentHasher) -> Seq<u8>;

/// A running SHA-256 computation over a stream of bytes. `sha2::Sha256` is an
/// alias of a wrapper generic over type-level integers, which Verus cannot
/// declare, so the hasher is held here, out of Verus's sight.
#[verifier::external_body]
pub struct ContentHasher {
    inner: sha2::Sha256,
}

/// Relies on `sha2::Digest::new` for `Sha256`: a fresh hasher has been fed nothing.
#[verifier::external_body]
fn hasher_new() -> (r: ContentHasher)
    ensures
        hashed_bytes(r) == Seq::<u8>::empty(),
{
    ContentHasher { inner: <sha2::Sha256 as sha2::Digest>::new() }
}

/// Relies on `sha2::Digest::update`: the bytes are appended to what the hasher
/// has been fed.
#[verifier::external_body]
fn hasher_update(h: &mut ContentHasher, data: &[u8])
    ensures
        hashed_bytes(*final(h)) == hashed_bytes(*old(h)) + data@,
{
    sha2::Digest::update(&mut h.inner, data);
}

/// Relies on `sha2::Digest::finalize`: the 32-byte SHA-256 digest of every
/// byte the hasher was fed.
#[verifier::external_body]
fn hasher_finalize(h: ContentHasher) -> (r: Vec<u8>)
    ensures
        r@ == sha256_of(hashed_bytes(h)),
        r@.len() == 32,
{
    sha2::Digest::finalize(h.inner).to_vec()
}

/// Lower-case hexadecimal digit for a value below 16.
pub open spec fn hex_digit(n: u8) -> char {
    if n == 0 {
        '0'
    } else if n == 1 {
        '1'
    } else if n == 2 {
        '2'
    } else if n == 3 {
        '3'
    } else if n == 4 {
        '4'
    } else if n == 5 {
        '5'
    } else if n == 6 {
        '6'
    } else if n == 7 {
        '7'
    } else if n == 8 {
        '8'
    } else if n == 9 {
        '9'
    } else if n == 10 {
        'a'
    } else if n == 11 {
        'b'
    } else if n == 12 {
        'c'
    } else if n == 13 {
        'd'
    } else if n == 14 {
        'e'
    } else {
        'f'
    }
}

/// Lower-case hexadecimal text of a byte sequence, two digits per byte, high
/// nibble first.
pub open spec fn hex_of(bytes: Seq<u8>) -> Seq<char>
    decreases bytes.len(),
{
    if bytes.len() == 0 {
        Seq::empty()
    } else {
        hex_of(bytes.drop_last()) + seq![
            hex_digit(bytes.last() / 16),
            hex_digit(bytes.last() % 16),
        ]
    }
}

/// The hexadecimal content hash that binds a ciphertext to its metadata.
pub open spec fn content_hash_of(data: Seq<u8>) -> Seq<char> {
    hex_of(sha256_of(data))
}

fn hex_digit_str(n: u8) -> (r: &'static str)
    requires
        n < 16,
    ensures
        r@ == seq![hex_digit(n)],
{
    proof {
        reveal_strlit("0");
        reveal_strlit("1");
        reveal_strlit("2");
        reveal_strlit("3");
        reveal_strlit("4");
        reveal_strlit("5");
        reveal_strlit("6");
        reveal_strlit("7");
        reveal_strlit("8");
        reveal_strlit("9");
        reveal_strlit("a");
        reveal_strlit("b");
        reveal_strlit("c");
        reveal_strlit("d");
        reveal_strlit("e");
        reveal_strlit("f");
    }
    match n {
        0 => "0",
        1 => "1",
        2 => "2",
        3 => "3",
        4 => "4",
        5 => "5",
        6 => "6",
        7 => "7",
        8 => "8",
        9 => "9",
        10 => "a",
        11 => "b",
        12 => "c",
        13 => "d",
        14 => "e",
        _ => "f",
    }
}

/// Lower-case hexadecimal text of the bytes.
pub fn to_hex(bytes: &[u8]) -> (r: String)
    ensures
        r@ == hex_of(bytes@),
{
    let mut out = String::new();
    let mut i: usize = 0;
    while i < bytes.len()
        invariant
            0 <= i <= bytes@.len(),
            out@ == hex_of(bytes@.take(i as int)),
        decreases bytes@.len() - i,
    {
        let b = bytes[i];
        proof {
            assert(bytes@.take(i + 1).drop_last() =~= bytes@.take(i as int));
        }
        out.append(hex_digit_str(b / 16));
        out.append(hex_digit_str(b % 16));
        i += 1;
        assert(out@ =~= hex_of(bytes@.take(i as int)));
    }
    assert(bytes@.take(bytes@.len() as int) =~= bytes@);
    out
}

/// Incremental computation of the content hash of a stream, fed chunk by chunk.
pub struct StreamDigest {
    hasher: ContentHasher,
}

impl StreamDigest {
    /// Every byte fed so far.
    pub closed spec fn absorbed(&self) -> Seq<u8> {
        hashed_bytes(self.hasher)
    }

    /// A digest that has been fed nothing.
    pub fn new() -> (r: StreamDigest)
        ensures
            r.absorbed() == Seq::<u8>::empty(),
    {
        StreamDigest { hasher: hasher_new() }
    }

    /// Feeds the next chunk of the stream.
    pub fn update(&mut self, chunk: &[u8])
        ensures
            final(self).absorbed() == old(self).absorbed() + chunk@,
    {
        hasher_update(&mut self.hasher, chunk);
    }

    /// The content hash of everything fed, as lower-case hexadecimal text.
    pub fn finish(self) -> (r: String)
        ensures
            r@ == content_hash_of(self.absorbed()),
    {
        let raw = hasher_finalize(self.hasher);
        to_hex(raw.as_slice())
    }
}

/// The content hash of a whole byte sequence, as lower-case hexadecimal text.
pub fn content_hash(data: &[u8]) -> (r: String)
    ensures
        r@ == content_hash_of(data@),
{
    let mut d = StreamDigest::new();
    d.update(data);
    assert(d.absorbed() =~= data@);
    d.finish()
}

} // verus!
