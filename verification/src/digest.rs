//! Content digests: SHA-256 over a byte preimage, and their hexadecimal text.

use crate::text;
use crate::types::Sha256;
use sha2::Digest;
use vstd::prelude::*;

verus! {

/// The SHA-256 digest of a byte string, as the `sha2` crate computes it.
pub uninterp spec fn sha256_of(data: Seq<u8>) -> Seq<u8>;

/// Calls `sha2::Sha256::digest`.
///
/// Claims that the digest is 32 bytes long and depends on `data` alone; what
/// those bytes are has a name, [`sha256_of`], and no further statement.
#[verifier::external_body]
fn sha256_digest(data: &[u8]) -> (r: [u8; 32])
    ensures
        r@ == sha256_of(data@),
{
    sha2::Sha256::digest(data).into()
}

/// The lowercase hexadecimal digit of a value below sixteen.
pub open spec fn hex_digit(v: int) -> char {
    if v < 10 {
        (48 + v) as char
    } else {
        (87 + v) as char
    }
}

/// Two lowercase hexadecimal digits per byte, the high half first.
pub open spec fn hex_text(bytes: Seq<u8>) -> Seq<char> {
    Seq::new(
        2 * bytes.len(),
        |i: int|
            hex_digit(
                if i % 2 == 0 {
                    bytes[i / 2] as int / 16
                } else {
                    bytes[i / 2] as int % 16
                },
            ),
    )
}

/// The value of a hexadecimal digit in either case, if it is one.
pub open spec fn hex_value(c: char) -> Option<int> {
    if '0' <= c <= '9' {
        Some(c as int - 48)
    } else if 'a' <= c <= 'f' {
        Some(c as int - 87)
    } else if 'A' <= c <= 'F' {
        Some(c as int - 55)
    } else {
        None
    }
}

/// An even number of hexadecimal digits and nothing else.
pub open spec fn is_hex(s: Seq<char>) -> bool {
    &&& s.len() % 2 == 0
    &&& forall|i: int| 0 <= i < s.len() ==> hex_value(#[trigger] s[i]) is Some
}

/// The bytes that a text of hexadecimal digits stands for.
pub open spec fn hex_bytes(s: Seq<char>) -> Seq<u8> {
    Seq::new(
        (s.len() / 2) as nat,
        |i: int| (16 * hex_value(s[2 * i])->0 + hex_value(s[2 * i + 1])->0) as u8,
    )
}

/// Calls `hex::encode`: lowercase, two digits per byte.
#[verifier::external_body]
fn hex_encode(data: &[u8]) -> (r: String)
    ensures
        r@ == hex_text(data@),
{
    hex::encode(data)
}

/// Calls `hex::decode`: accepts digits of either case, refuses an odd length
/// or any other character.
#[verifier::external_body]
fn hex_decode(data: &str) -> (r: Option<Vec<u8>>)
    ensures
        r is Some <==> is_hex(data@),
        r matches Some(bytes) ==> bytes@ == hex_bytes(data@),
{
    hex::decode(data).ok()
}

/// Decoding the hexadecimal text of a byte string gives the bytes back.
pub proof fn hex_round_trip(bytes: Seq<u8>)
    ensures
        is_hex(hex_text(bytes)),
        hex_bytes(hex_text(bytes)) == bytes,
{
    let s = hex_text(bytes);
    assert forall|v: int| 0 <= v < 16 implies #[trigger] hex_value(hex_digit(v)) == Some(v) by {}
    assert forall|i: int| 0 <= i < s.len() implies hex_value(#[trigger] s[i]) is Some by {
        let b = bytes[i / 2] as int;
        let v = if i % 2 == 0 {
            b / 16
        } else {
            b % 16
        };
        assert(0 <= v < 16);
        assert(hex_value(hex_digit(v)) == Some(v));
    }
    assert forall|i: int| 0 <= i < bytes.len() implies hex_bytes(s)[i] == bytes[i] by {
        let b = bytes[i] as int;
        assert((2 * i) % 2 == 0 && (2 * i) / 2 == i);
        assert((2 * i + 1) % 2 == 1 && (2 * i + 1) / 2 == i);
        assert(hex_value(hex_digit(b / 16)) == Some(b / 16));
        assert(hex_value(hex_digit(b % 16)) == Some(b % 16));
        assert(s[2 * i] == hex_digit(b / 16));
        assert(s[2 * i + 1] == hex_digit(b % 16));
        assert(16 * (b / 16) + b % 16 == b);
    }
    assert(hex_bytes(s) =~= bytes);
}

/// Different byte strings have different hexadecimal texts.
pub proof fn hex_text_injective(a: Seq<u8>, b: Seq<u8>)
    requires
        hex_text(a) == hex_text(b),
    ensures
        a == b,
{
    hex_round_trip(a);
    hex_round_trip(b);
}

/// Collects the byte preimage of a digest.
pub struct Hasher {
    data: Vec<u8>,
}

impl View for Hasher {
    type V = Seq<u8>;

    closed spec fn view(&self) -> Seq<u8> {
        self.data@
    }
}

impl Hasher {
    /// An empty preimage.
    pub fn new() -> (r: Self)
        ensures
            r@ == Seq::<u8>::empty(),
    {
        Hasher { data: Vec::new() }
    }

    /// Appends bytes to the preimage.
    pub fn update(&mut self, bytes: &[u8])
        ensures
            final(self)@ == old(self)@ + bytes@,
    {
        let mut i: usize = 0;
        while i < bytes.len()
            invariant
                i <= bytes.len(),
                self@ == old(self)@ + bytes@.take(i as int),
            decreases bytes.len() - i,
        {
            self.data.push(bytes[i]);
            i = i + 1;
            assert(self@ =~= old(self)@ + bytes@.take(i as int));
        }
        assert(bytes@.take(bytes@.len() as int) =~= bytes@);
        assert(self@ =~= old(self)@ + bytes@);
    }

    /// Appends the UTF-8 encoding of a text to the preimage.
    pub fn update_text(&mut self, s: &str)
        ensures
            final(self)@ == old(self)@ + text::utf8(s@),
    {
        self.update(s.as_bytes());
    }

    /// The digest of everything appended so far.
    pub fn finalize(self) -> (r: Sha256)
        ensures
            r@ == sha256_of(self@),
    {
        Sha256(sha256_digest(self.data.as_slice()))
    }
}

/// The hexadecimal text of a byte string.
pub fn to_hex(data: &[u8]) -> (r: String)
    ensures
        r@ == hex_text(data@),
{
    hex_encode(data)
}

/// The digest that a text of sixty-four hexadecimal digits stands for.
///
/// `None` for any other text.
pub fn parse_sha256(hex_str: &str) -> (r: Option<Sha256>)
    ensures
        r is Some <==> is_hex(hex_str@) && hex_str@.len() == 64,
        r matches Some(h) ==> h@ == hex_bytes(hex_str@),
{
    match hex_decode(hex_str) {
        None => None,
        Some(bytes) => {
            if bytes.len() != 32 {
                return None;
            }
            let mut out: [u8; 32] = [0u8; 32];
            let mut i: usize = 0;
            while i < 32
                invariant
                    i <= 32,
                    bytes.len() == 32,
                    forall|k: int| 0 <= k < i ==> out@[k] == bytes@[k],
                decreases 32 - i,
            {
                out[i] = bytes[i];
                i = i + 1;
            }
            assert(out@ =~= bytes@);
            Some(Sha256(out))
        },
    }
}

} // verus!
