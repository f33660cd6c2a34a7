//! Domain-separated signing of encoded payloads.
use vstd::prelude::*;
use crate::codec::{lemma_encoding_injective, Encode, RoundTrip};

verus! {

#[verifier::external_type_specification]
#[verifier::external_body]
pub struct ExSignatureError(signature::Error);

/// The bytes that are signed for a payload: its type's prefix, a colon, and
/// its encoding.
pub open spec fn signed_bytes(prefix: Seq<u8>, content: Seq<u8>) -> Seq<u8> {
    prefix + seq![58u8] + content
}

/// Builds `prefix ++ ":" ++ content`.
pub fn prefixed_content(prefix: &[u8], content: &[u8]) -> (r: Vec<u8>)
    requires
        prefix@.len() + content@.len() + 1 <= usize::MAX,
    ensures
        r@ == signed_bytes(prefix@, content@),
{
    let mut r: Vec<u8> = Vec::with_capacity(prefix.len() + 1 + content.len());
    let mut i: usize = 0;
    while i < prefix.len()
        invariant
            i <= prefix@.len(),
            r@ == prefix@.subrange(0, i as int),
        decreases prefix@.len() - i,
    {
        r.push(prefix[i]);
        i = i + 1;
    }
    r.push(58u8);
    let mut j: usize = 0;
    while j < content.len()
        invariant
            j <= content@.len(),
            r@ == prefix@ + seq![58u8] + content@.subrange(0, j as int),
        decreases content@.len() - j,
    {
        r.push(content[j]);
        j = j + 1;
    }
    proof {
        assert(prefix@.subrange(0, prefix@.len() as int) =~= prefix@);
        assert(content@.subrange(0, content@.len() as int) =~= content@);
    }
    r
}

/// Domain separation: the bytes signed for two payload types with different
/// prefixes differ, even where the encoded content is the same.
pub proof fn lemma_domain_separation<A: Signable, B: Signable>(content: Seq<u8>)
    requires
        A::spec_prefix() != B::spec_prefix(),
    ensures
        signed_bytes(A::spec_prefix(), content) != signed_bytes(B::spec_prefix(), content),
{
    let a = A::spec_prefix();
    let b = B::spec_prefix();
    if signed_bytes(a, content) == signed_bytes(b, content) {
        assert(signed_bytes(a, content).len() == a.len() + 1 + content.len());
        assert(signed_bytes(b, content).len() == b.len() + 1 + content.len());
        assert(signed_bytes(a, content).subrange(0, a.len() as int) =~= a);
        assert(signed_bytes(b, content).subrange(0, b.len() as int) =~= b);
    }
}

/// Two different payloads of one type are never signed over the same
/// bytes, so a signature over one never covers the other.
pub proof fn lemma_signed_bytes_injective<T: Signable + RoundTrip>(a: T, b: T)
    requires
        a@ != b@,
    ensures
        signed_bytes(T::spec_prefix(), a.encoding()) != signed_bytes(T::spec_prefix(), b.encoding()),
{
    lemma_encoding_injective(a, b);
    let p = T::spec_prefix() + seq![58u8];
    let x = signed_bytes(T::spec_prefix(), a.encoding());
    let y = signed_bytes(T::spec_prefix(), b.encoding());
    if x == y {
        assert(x.subrange(p.len() as int, x.len() as int) =~= a.encoding());
        assert(y.subrange(p.len() as int, y.len() as int) =~= b.encoding());
    }
}

/// A payload type with a fixed domain prefix, mixed into every signature
/// over its values so that a signature for one type never verifies as one
/// for another.
pub trait Signable: Encode {
    /// The domain prefix of this payload type.
    spec fn spec_prefix() -> Seq<u8>;

    /// The domain prefix of this payload type, fixed for the type.
    fn prefix() -> (r: &'static [u8])
        ensures
            r@ == Self::spec_prefix(),
    ;

    /// Signs this payload: `sign_bytes` (a private key's signing operation)
    /// is handed the prefixed encoding, and its outcome is returned.
    fn sign<F>(&self, sign_bytes: F) -> (r: Result<Vec<u8>, signature::Error>) where
        F: Fn(&[u8]) -> Result<Vec<u8>, signature::Error>,
        requires
            Self::spec_prefix().len() + self.encoding().len() + 1 <= usize::MAX,
            forall|m: &[u8]| #[trigger] sign_bytes.requires((m,)),
        ensures
            exists|m: &[u8]|
                m@ == signed_bytes(Self::spec_prefix(), self.encoding()) && #[trigger] sign_bytes.ensures(
                    (m,),
                    r,
                ),
    {
        let content = self.encode();
        let message = prefixed_content(Self::prefix(), content.as_slice());
        sign_bytes(message.as_slice())
    }

    /// Checks `signature` over the encoded payload `msg` of this type:
    /// `verify_bytes` (a public key's verifying operation) is handed the
    /// prefixed encoding and the signature, and its outcome is returned.
    fn verify<F>(verify_bytes: F, msg: &[u8], signature: &[u8]) -> (r: Result<
        (),
        signature::Error,
    >) where F: Fn(&[u8], &[u8]) -> Result<(), signature::Error>,
        requires
            Self::spec_prefix().len() + msg@.len() + 1 <= usize::MAX,
            forall|m: &[u8], s: &[u8]| #[trigger] verify_bytes.requires((m, s)),
        ensures
            exists|m: &[u8]|
                m@ == signed_bytes(Self::spec_prefix(), msg@) && #[trigger] verify_bytes.ensures(
                    (m, signature),
                    r,
                ),
    {
        let message = prefixed_content(Self::prefix(), msg);
        verify_bytes(message.as_slice(), signature)
    }
}

} // verus!
