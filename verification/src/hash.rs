//! The 32-byte digest that names every object.

use vstd::prelude::*;
use vstd::string::StringSliceAdditionalSpecFns;
use crate::crypto::{
    base58_check_decode, base58_check_encode, base58_check_payload, base58_check_text, sha256,
    sha256_digest,
};
use crate::error::{deserialize_error, ModelsError};

verus! {

/// Size of a digest, in bytes.
pub const HASH_SIZE_BYTES: usize = 32;

/// A SHA-256 digest.
#[derive(Clone, Copy, Debug, PartialEq, Eq, PartialOrd, Ord, Hash)]
pub struct Hash {
    pub bytes: [u8; 32],
}

impl View for Hash {
    type V = Seq<u8>;

    open spec fn view(&self) -> Seq<u8> {
        self.bytes@
    }
}

/// Two digests with the same bytes are the same digest.
pub proof fn lemma_hash_ext(a: Hash, b: Hash)
    requires
        a@ == b@,
    ensures
        a == b,
{
    assert(a.bytes@ =~= b.bytes@);
    assert(a.bytes =~= b.bytes);
}

/// The number of dashes among `bytes`.
pub open spec fn count_dashes(bytes: Seq<u8>) -> nat
    decreases bytes.len(),
{
    if bytes.len() == 0 {
        0
    } else if bytes.last() == 0x2d {
        count_dashes(bytes.drop_last()) + 1
    } else {
        count_dashes(bytes.drop_last())
    }
}

/// The place of the first dash among `bytes`, if there is one.
pub open spec fn first_dash(bytes: Seq<u8>) -> int
    decreases bytes.len(),
{
    if bytes.len() == 0 {
        0
    } else if count_dashes(bytes.drop_last()) > 0 {
        first_dash(bytes.drop_last())
    } else {
        bytes.len() - 1
    }
}

/// What the text of an identifier stands for.
pub enum TextualId {
    /// The identifier with these bytes.
    Digest(Seq<u8>),
    /// Nothing: the text carries this prefix, which is not the expected one.
    WrongPrefix(Seq<u8>),
    /// Nothing: the text is no Base58Check text of 32 bytes.
    Malformed,
}

/// What the text with the bytes `text` stands for, for identifiers whose texts may
/// carry the prefix `prefix`. A text with exactly one dash is a prefix, which must be
/// `prefix`, and the Base58Check text of the digest behind the dash; any other text is
/// the Base58Check text of the digest.
pub open spec fn parse_prefixed_text(text: Seq<u8>, prefix: Seq<u8>) -> TextualId {
    let payload = if count_dashes(text) == 1 {
        text.subrange(first_dash(text) + 1, text.len() as int)
    } else {
        text
    };
    if count_dashes(text) == 1 && text.subrange(0, first_dash(text)) != prefix {
        TextualId::WrongPrefix(text.subrange(0, first_dash(text)))
    } else {
        match Hash::spec_from_bs58_check(payload) {
            Some(digest) => TextualId::Digest(digest),
            None => TextualId::Malformed,
        }
    }
}

/// The 32-byte array that holds the bytes `bytes`.
pub open spec fn array32_from_seq(bytes: Seq<u8>) -> [u8; 32] {
    choose|a: [u8; 32]| a@ == bytes
}

/// The 64-byte array that holds the bytes `bytes`.
pub open spec fn array64_from_seq(bytes: Seq<u8>) -> [u8; 64] {
    choose|a: [u8; 64]| a@ == bytes
}

/// An array is the array that holds its bytes.
pub proof fn lemma_array32_from_seq(a: [u8; 32])
    ensures
        array32_from_seq(a@) == a,
        a@.len() == 32,
{
    let b = array32_from_seq(a@);
    assert(b@ =~= a@);
    assert(b =~= a);
}

/// An array is the array that holds its bytes.
pub proof fn lemma_array64_from_seq(a: [u8; 64])
    ensures
        array64_from_seq(a@) == a,
        a@.len() == 64,
{
    let b = array64_from_seq(a@);
    assert(b@ =~= a@);
    assert(b =~= a);
}

/// What reading 32 bytes at `pos` yields.
pub open spec fn parse_bytes32(s: Seq<u8>, pos: int) -> Option<([u8; 32], int)> {
    if 0 <= pos && pos + 32 <= s.len() {
        Some((array32_from_seq(s.subrange(pos, pos + 32)), pos + 32))
    } else {
        None
    }
}

/// What reading 64 bytes at `pos` yields.
pub open spec fn parse_bytes64(s: Seq<u8>, pos: int) -> Option<([u8; 64], int)> {
    if 0 <= pos && pos + 64 <= s.len() {
        Some((array64_from_seq(s.subrange(pos, pos + 64)), pos + 64))
    } else {
        None
    }
}

/// Reading an array where its bytes stand gives the array back.
pub proof fn lemma_bytes32_round_trip(s: Seq<u8>, pos: int, a: [u8; 32])
    requires
        crate::codec::holds_at(s, pos, a@),
    ensures
        parse_bytes32(s, pos) == Some((a, pos + 32)),
{
    lemma_array32_from_seq(a);
}

/// Reading an array where its bytes stand gives the array back.
pub proof fn lemma_bytes64_round_trip(s: Seq<u8>, pos: int, a: [u8; 64])
    requires
        crate::codec::holds_at(s, pos, a@),
    ensures
        parse_bytes64(s, pos) == Some((a, pos + 64)),
{
    lemma_array64_from_seq(a);
}

/// Whether two 32-byte arrays hold the same bytes.
pub fn bytes32_eq(a: &[u8; 32], b: &[u8; 32]) -> (same: bool)
    ensures
        same == (*a == *b),
        same == (a@ == b@),
{
    let mut k: usize = 0;
    while k < 32
        invariant
            k <= 32,
            forall|j: int| 0 <= j < k ==> a@[j] == b@[j],
        decreases 32 - k,
    {
        if a[k] != b[k] {
            return false;
        }
        k = k + 1;
    }
    assert(a@ =~= b@);
    assert(*a =~= *b);
    true
}

/// The 32 bytes of `buffer` from `pos` on.
pub fn bytes32_from_slice(buffer: &[u8], pos: usize) -> (r: Result<[u8; 32], ModelsError>)
    ensures
        match parse_bytes32(buffer@, pos as int) {
            Some((a, end)) => r == Ok::<[u8; 32], ModelsError>(a) && end <= usize::MAX,
            None => r.is_err() && r.unwrap_err().is_deserialize(),
        },
        r.is_ok() ==> r.unwrap()@ == buffer@.subrange(pos as int, pos + 32),
{
    if pos > buffer.len() || buffer.len() - pos < 32 {
        return Err(deserialize_error("buffer too small"));
    }
    let mut out = [0u8; 32];
    let mut k: usize = 0;
    while k < 32
        invariant
            k <= 32,
            pos + 32 <= buffer@.len() <= usize::MAX,
            forall|j: int| 0 <= j < k ==> out@[j] == buffer@[pos + j],
        decreases 32 - k,
    {
        out[k] = buffer[pos + k];
        k = k + 1;
    }
    assert(out@ =~= buffer@.subrange(pos as int, pos + 32));
    proof {
        lemma_array32_from_seq(out);
    }
    Ok(out)
}

/// The 64 bytes of `buffer` from `pos` on.
pub fn bytes64_from_slice(buffer: &[u8], pos: usize) -> (r: Result<[u8; 64], ModelsError>)
    ensures
        match parse_bytes64(buffer@, pos as int) {
            Some((a, end)) => r == Ok::<[u8; 64], ModelsError>(a) && end <= usize::MAX,
            None => r.is_err() && r.unwrap_err().is_deserialize(),
        },
        r.is_ok() ==> r.unwrap()@ == buffer@.subrange(pos as int, pos + 64),
{
    if pos > buffer.len() || buffer.len() - pos < 64 {
        return Err(deserialize_error("buffer too small"));
    }
    let mut out = [0u8; 64];
    let mut k: usize = 0;
    while k < 64
        invariant
            k <= 64,
            pos + 64 <= buffer@.len() <= usize::MAX,
            forall|j: int| 0 <= j < k ==> out@[j] == buffer@[pos + j],
        decreases 64 - k,
    {
        out[k] = buffer[pos + k];
        k = k + 1;
    }
    assert(out@ =~= buffer@.subrange(pos as int, pos + 64));
    proof {
        lemma_array64_from_seq(out);
    }
    Ok(out)
}

impl Hash {
    /// The digest of `data`.
    pub fn compute_from(data: &[u8]) -> (h: Hash)
        ensures
            h@ == sha256(data@),
    {
        Hash { bytes: sha256_digest(data) }
    }

    /// The digest's bytes.
    pub fn to_bytes(&self) -> (bytes: [u8; 32])
        ensures
            bytes == self.bytes,
    {
        self.bytes
    }

    /// The digest's bytes, consuming it.
    pub fn into_bytes(self) -> (bytes: [u8; 32])
        ensures
            bytes == self.bytes,
    {
        self.bytes
    }

    /// The digest with the given bytes.
    pub fn from_bytes(data: &[u8; 32]) -> (h: Hash)
        ensures
            h.bytes == *data,
    {
        Hash { bytes: *data }
    }

    /// Whether two digests are the same.
    pub fn equals(&self, other: &Hash) -> (same: bool)
        ensures
            same == (*self == *other),
    {
        bytes32_eq(&self.bytes, &other.bytes)
    }

    /// The Base58Check text of the digest.
    pub fn to_bs58_check(&self) -> (text: String)
        ensures
            text@ == base58_check_text(self@),
    {
        base58_check_encode(self.bytes.as_slice())
    }

    /// What `from_bs58_check` makes of the text with bytes `text`: the digest whose
    /// bytes are the text's payload, when that payload has 32 bytes.
    pub open spec fn spec_from_bs58_check(text: Seq<u8>) -> Option<Seq<u8>> {
        match base58_check_payload(text) {
            Some(payload) => if payload.len() == 32 {
                Some(payload)
            } else {
                None
            },
            None => None,
        }
    }

    /// Reads a digest from the bytes of its Base58Check text.
    pub fn from_bs58_check_bytes(text: &[u8]) -> (r: Result<Hash, ModelsError>)
        ensures
            match Self::spec_from_bs58_check(text@) {
                Some(payload) => r.is_ok() && r.unwrap()@ == payload,
                None => r == Err::<Hash, ModelsError>(ModelsError::HashError),
            },
    {
        match base58_check_decode(text) {
            Some(payload) => {
                if payload.len() != 32 {
                    return Err(ModelsError::HashError);
                }
                match bytes32_from_slice(payload.as_slice(), 0) {
                    Ok(bytes) => {
                        assert(payload@.subrange(0, 32) =~= payload@);
                        Ok(Hash { bytes })
                    },
                    Err(_) => Err(ModelsError::HashError),
                }
            },
            None => Err(ModelsError::HashError),
        }
    }

    /// Reads a digest from the text of an identifier, with or without the prefix
    /// `prefix` and a dash before the Base58Check text. Fails with `WrongPrefix`
    /// exactly when the text has one dash and another prefix before it, else with
    /// `HashError` exactly when what stands for the digest is no Base58Check text of 32
    /// bytes.
    pub fn from_prefixed_text(s: &str, prefix: &str) -> (r: Result<Hash, ModelsError>)
        ensures
            match parse_prefixed_text(s.spec_bytes(), prefix.spec_bytes()) {
                TextualId::Digest(digest) => r.is_ok() && r.unwrap()@ == digest,
                TextualId::WrongPrefix(found_bytes) => r matches Err(
                    ModelsError::WrongPrefix(expected, found),
                ) && expected@ == prefix@ && vstd::utf8::encode_utf8(found@) == found_bytes,
                TextualId::Malformed => r == Err::<Hash, ModelsError>(ModelsError::HashError),
            },
    {
        let bytes = s.as_bytes();
        let expected = prefix.as_bytes();
        let mut dashes: usize = 0;
        let mut first: usize = 0;
        let mut k: usize = 0;
        while k < bytes.len()
            invariant
                k <= bytes@.len(),
                dashes == count_dashes(bytes@.take(k as int)),
                dashes <= k,
                dashes > 0 ==> first == first_dash(bytes@.take(k as int)) && first < k
                    && bytes@[first as int] == 0x2d,
            decreases bytes@.len() - k,
        {
            proof {
                assert(bytes@.take(k + 1).drop_last() =~= bytes@.take(k as int));
                assert(bytes@.take(k + 1).last() == bytes@[k as int]);
            }
            if bytes[k] == 0x2d {
                if dashes == 0 {
                    first = k;
                }
                dashes = dashes + 1;
            }
            k = k + 1;
        }
        assert(bytes@.take(k as int) =~= bytes@);
        if dashes != 1 {
            return Self::from_bs58_check_bytes(bytes);
        }
        let mut is_prefix = first == expected.len();
        let mut j: usize = 0;
        while is_prefix && j < first
            invariant
                first < bytes@.len(),
                j <= first,
                is_prefix ==> first == expected@.len(),
                is_prefix ==> forall|i: int| 0 <= i < j ==> bytes@[i] == expected@[i],
                !is_prefix ==> bytes@.subrange(0, first as int) != expected@,
            decreases first - j + if is_prefix { 1int } else { 0int },
        {
            if bytes[j] != expected[j] {
                is_prefix = false;
                assert(bytes@.subrange(0, first as int)[j as int] == bytes@[j as int]);
            } else {
                j = j + 1;
            }
        }
        if !is_prefix {
            proof {
                vstd::utf8::encode_utf8_valid_utf8(s@);
                vstd::utf8::is_char_boundary_iff_not_is_continuation_byte(
                    s.spec_bytes(),
                    first as int,
                );
            }
            let (head, _rest) = s.split_at(first);
            return Err(ModelsError::WrongPrefix(prefix.to_owned(), head.to_owned()));
        }
        assert(bytes@.subrange(0, first as int) =~= expected@);
        let payload = vstd::slice::slice_subrange(bytes, first + 1, bytes.len());
        Self::from_bs58_check_bytes(payload)
    }

    /// Reads a digest from its Base58Check text.
    pub fn from_bs58_check(data: &str) -> (r: Result<Hash, ModelsError>)
        ensures
            match Self::spec_from_bs58_check(data.spec_bytes()) {
                Some(payload) => r.is_ok() && r.unwrap()@ == payload,
                None => r == Err::<Hash, ModelsError>(ModelsError::HashError),
            },
    {
        Self::from_bs58_check_bytes(data.as_bytes())
    }
}

} // verus!
