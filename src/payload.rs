//! The signed record kinds of the registry. Each carries its record in
//! canonical encoded form and has a signing prefix of its own.
use vstd::prelude::*;
use crate::codec::{copy_bytes, Decode, DecodeError, Encode, RoundTrip};
use crate::signing::Signable;

verus! {

/// A package log record, in encoded form.
#[derive(Debug, Clone, PartialEq, Eq)]
pub struct PackageRecord {
    pub content: Vec<u8>,
}

/// An operator log record, in encoded form.
#[derive(Debug, Clone, PartialEq, Eq)]
pub struct OperatorRecord {
    pub content: Vec<u8>,
}

impl View for PackageRecord {
    type V = Seq<u8>;

    open spec fn view(&self) -> Seq<u8> {
        self.content@
    }
}

impl Encode for PackageRecord {
    open spec fn encoding(&self) -> Seq<u8> {
        self.content@
    }

    fn encode(&self) -> (r: Vec<u8>) {
        copy_bytes(self.content.as_slice())
    }
}

impl Decode for PackageRecord {
    open spec fn decoding(bytes: Seq<u8>) -> Option<Seq<u8>> {
        Some(bytes)
    }

    fn decode(bytes: &[u8]) -> (r: Result<Self, DecodeError>) {
        Ok(PackageRecord { content: copy_bytes(bytes) })
    }
}

impl Signable for PackageRecord {
    /// `PKG`
    open spec fn spec_prefix() -> Seq<u8> {
        seq![0x50u8, 0x4b, 0x47]
    }

    fn prefix() -> (r: &'static [u8]) {
        let r: &'static [u8] = &[0x50, 0x4b, 0x47];
        proof {
            assert(r@ =~= seq![0x50u8, 0x4b, 0x47]);
        }
        r
    }
}

impl View for OperatorRecord {
    type V = Seq<u8>;

    open spec fn view(&self) -> Seq<u8> {
        self.content@
    }
}

impl Encode for OperatorRecord {
    open spec fn encoding(&self) -> Seq<u8> {
        self.content@
    }

    fn encode(&self) -> (r: Vec<u8>) {
        copy_bytes(self.content.as_slice())
    }
}

impl Decode for OperatorRecord {
    open spec fn decoding(bytes: Seq<u8>) -> Option<Seq<u8>> {
        Some(bytes)
    }

    fn decode(bytes: &[u8]) -> (r: Result<Self, DecodeError>) {
        Ok(OperatorRecord { content: copy_bytes(bytes) })
    }
}

impl Signable for OperatorRecord {
    /// `OP`
    open spec fn spec_prefix() -> Seq<u8> {
        seq![0x4fu8, 0x50]
    }

    fn prefix() -> (r: &'static [u8]) {
        let r: &'static [u8] = &[0x4f, 0x50];
        proof {
            assert(r@ =~= seq![0x4fu8, 0x50]);
        }
        r
    }
}

impl RoundTrip for PackageRecord {
    proof fn lemma_round_trip(&self) {
    }
}

impl RoundTrip for OperatorRecord {
    proof fn lemma_round_trip(&self) {
    }
}

/// Package and operator records are signed under different prefixes.
pub proof fn lemma_record_prefixes_differ()
    ensures
        PackageRecord::spec_prefix() != OperatorRecord::spec_prefix(),
{
    assert(PackageRecord::spec_prefix().len() != OperatorRecord::spec_prefix().len());
}

} // verus!
