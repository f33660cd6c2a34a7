//! Signed envelopes: an encoded payload, the id of the key that signed it,
//! and the signature over its prefixed encoding.
use vstd::prelude::*;
use crate::codec::{Decode, DecodeError, Encode, RoundTrip};
use crate::signing::{signed_bytes, Signable};

verus! {

/// Why an envelope could not be opened.
pub enum OpenError {
    /// The content bytes do not decode to a payload.
    Decode(DecodeError),
    /// The content decodes, but the signature does not verify.
    Signature(signature::Error),
}

/// A payload together with its canonical encoding, the id of the signing
/// key and the signature. The payload always equals the decoding of the
/// content bytes.
pub struct Envelope<T> {
    content: T,
    content_bytes: Vec<u8>,
    key_id: String,
    signature: Vec<u8>,
}

/// The payload that opening an envelope with these content bytes yields,
/// given whether its signature verified.
pub open spec fn opened<T: Decode>(content_bytes: Seq<u8>, verified: bool) -> Option<T::V> {
    if verified {
        T::decoding(content_bytes)
    } else {
        None
    }
}

/// A payload opens from its encoding exactly when the signature check succeeds.
pub proof fn lemma_open_sealed<T: RoundTrip>(v: T)
    ensures
        opened::<T>(v.encoding(), true) == Some(v@),
        opened::<T>(v.encoding(), false) is None,
{
    v.lemma_round_trip();
}

impl<T> Envelope<T> {
    pub closed spec fn spec_content(&self) -> T {
        self.content
    }

    pub closed spec fn spec_content_bytes(&self) -> Seq<u8> {
        self.content_bytes@
    }

    pub closed spec fn spec_key_id(&self) -> Seq<char> {
        self.key_id@
    }

    pub closed spec fn spec_signature(&self) -> Seq<u8> {
        self.signature@
    }

    pub fn content(&self) -> (r: &T)
        ensures
            *r == self.spec_content(),
    {
        &self.content
    }

    pub fn content_bytes(&self) -> (r: &[u8])
        ensures
            r@ == self.spec_content_bytes(),
    {
        self.content_bytes.as_slice()
    }

    pub fn key_id(&self) -> (r: &str)
        ensures
            r@ == self.spec_key_id(),
    {
        self.key_id.as_str()
    }

    pub fn signature(&self) -> (r: &[u8])
        ensures
            r@ == self.spec_signature(),
    {
        self.signature.as_slice()
    }
}

impl<T: Signable + Decode> Envelope<T> {
    pub closed spec fn wf(&self) -> bool {
        T::decoding(self.content_bytes@) == Some(self.content@)
    }

    /// Encodes `content`, signs the prefixed encoding with `sign_bytes` and
    /// bundles the result under `key_id`; fails as the signing fails.
    pub fn seal<F>(content: T, key_id: String, sign_bytes: F) -> (r: Result<
        Envelope<T>,
        signature::Error,
    >) where F: Fn(&[u8]) -> Result<Vec<u8>, signature::Error>, T: RoundTrip,
        requires
            T::spec_prefix().len() + content.encoding().len() + 1 <= usize::MAX,
            forall|m: &[u8]| #[trigger] sign_bytes.requires((m,)),
        ensures
            exists|m: &[u8], s: Result<Vec<u8>, signature::Error>|
                m@ == signed_bytes(T::spec_prefix(), content.encoding()) && #[trigger] sign_bytes.ensures(
                    (m,),
                    s,
                ) && match (s, r) {
                    (Ok(sig), Ok(e)) => e.wf() && e.spec_content() == content
                        && e.spec_content_bytes() == content.encoding() && e.spec_key_id()
                        == key_id@ && e.spec_signature() == sig@,
                    (Err(x), Err(y)) => x == y,
                    _ => false,
                },
    {
        proof {
            content.lemma_round_trip();
        }
        let signed = content.sign(sign_bytes);
        match signed {
            Ok(signature) => {
                let content_bytes = content.encode();
                Ok(Envelope { content, content_bytes, key_id, signature })
            },
            Err(e) => Err(e),
        }
    }

    /// Builds an envelope from its parts, given the outcome of checking the
    /// signature over the prefixed content bytes: the content must decode,
    /// and the check must have succeeded.
    pub fn from_parts(
        content_bytes: Vec<u8>,
        key_id: String,
        signature: Vec<u8>,
        checked: Result<(), signature::Error>,
    ) -> (r: Result<Envelope<T>, OpenError>)
        ensures
            match r {
                Ok(e) => opened::<T>(content_bytes@, checked is Ok) == Some(e.spec_content()@)
                    && e.wf() && e.spec_content_bytes() == content_bytes@ && e.spec_key_id()
                    == key_id@ && e.spec_signature() == signature@,
                Err(OpenError::Decode(_)) => T::decoding(content_bytes@) is None,
                Err(OpenError::Signature(x)) => T::decoding(content_bytes@) is Some
                    && checked == Err::<(), signature::Error>(x),
            },
    {
        match T::decode(content_bytes.as_slice()) {
            Err(e) => Err(OpenError::Decode(e)),
            Ok(content) => match checked {
                Err(x) => Err(OpenError::Signature(x)),
                Ok(()) => Ok(Envelope { content, content_bytes, key_id, signature }),
            },
        }
    }

    /// Opens an envelope: checks `signature` over the prefixed content bytes
    /// with `verify_bytes` (a public key's verifying operation) and builds
    /// the envelope as `from_parts` does with that outcome.
    pub fn open<F>(content_bytes: Vec<u8>, key_id: String, signature: Vec<u8>, verify_bytes: F) -> (r:
        Result<Envelope<T>, OpenError>) where
        F: Fn(&[u8], &[u8]) -> Result<(), signature::Error>,
        requires
            T::spec_prefix().len() + content_bytes@.len() + 1 <= usize::MAX,
            forall|m: &[u8], s: &[u8]| #[trigger] verify_bytes.requires((m, s)),
        ensures
            exists|m: &[u8], sg: &[u8], c: Result<(), signature::Error>|
                m@ == signed_bytes(T::spec_prefix(), content_bytes@) && sg@ == signature@
                    && #[trigger] verify_bytes.ensures((m, sg), c) && match r {
                    Ok(e) => opened::<T>(content_bytes@, c is Ok) == Some(e.spec_content()@)
                        && e.wf() && e.spec_content_bytes() == content_bytes@ && e.spec_key_id()
                        == key_id@ && e.spec_signature() == signature@,
                    Err(OpenError::Decode(_)) => T::decoding(content_bytes@) is None,
                    Err(OpenError::Signature(x)) => T::decoding(content_bytes@) is Some
                        && c == Err::<(), signature::Error>(x),
                },
    {
        let checked = T::verify(verify_bytes, content_bytes.as_slice(), signature.as_slice());
        Self::from_parts(content_bytes, key_id, signature, checked)
    }
}

} // verus!
