//! The canonical binary encoding of payloads.
use vstd::prelude::*;

verus! {

/// Bytes that are not the encoding of any payload of the expected type.
#[derive(Debug, Clone)]
pub struct DecodeError {
    pub reason: String,
}

/// A fresh vector holding `b`.
pub(crate) fn copy_bytes(b: &[u8]) -> (r: Vec<u8>)
    ensures
        r@ == b@,
{
    let mut r: Vec<u8> = Vec::with_capacity(b.len());
    let mut i: usize = 0;
    while i < b.len()
        invariant
            i <= b@.len(),
            r@ == b@.subrange(0, i as int),
        decreases b@.len() - i,
    {
        r.push(b[i]);
        i = i + 1;
    }
    proof {
        assert(b@.subrange(0, b@.len() as int) =~= b@);
    }
    r
}

/// A payload with a canonical byte encoding.
pub trait Encode {
    /// The canonical encoding of this value.
    spec fn encoding(&self) -> Seq<u8>;

    fn encode(&self) -> (r: Vec<u8>)
        ensures
            r@ == self.encoding(),
    ;
}

/// A payload that can be read back from its canonical encoding.
pub trait Decode: Sized + View {
    /// The view of the value that `bytes` encode, if they encode one.
    spec fn decoding(bytes: Seq<u8>) -> Option<Self::V>;

    fn decode(bytes: &[u8]) -> (r: Result<Self, DecodeError>)
        ensures
            match r {
                Ok(v) => Self::decoding(bytes@) == Some(v@),
                Err(_) => Self::decoding(bytes@) is None,
            },
    ;
}

/// A payload whose canonical encoding reads back as the payload itself.
pub trait RoundTrip: Encode + Decode {
    /// Decoding the encoding of a value gives the value back.
    proof fn lemma_round_trip(&self)
        ensures
            Self::decoding(self.encoding()) == Some(self@),
    ;
}

/// Payloads of a round-trip type with different views have different
/// encodings.
pub proof fn lemma_encoding_injective<T: RoundTrip>(a: T, b: T)
    requires
        a@ != b@,
    ensures
        a.encoding() != b.encoding(),
{
    a.lemma_round_trip();
    b.lemma_round_trip();
}

} // verus!
