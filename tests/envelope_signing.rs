use warg::codec::{Decode, Encode};
use warg::envelope::{Envelope, OpenError};
use warg::payload::{OperatorRecord, PackageRecord};
use warg::signing::{prefixed_content, Signable};

fn pkg(b: &[u8]) -> PackageRecord {
    PackageRecord { content: b.to_vec() }
}

fn op(b: &[u8]) -> OperatorRecord {
    OperatorRecord { content: b.to_vec() }
}

/// A keyed checksum standing in for a signature scheme; the public key
/// equals the private one.
fn toy_sig(key: u64, msg: &[u8]) -> Vec<u8> {
    let mut h = key ^ 0xcbf2_9ce4_8422_2325;
    for b in msg {
        h = (h ^ (*b as u64)).wrapping_mul(0x0000_0100_0000_01b3);
    }
    h.to_le_bytes().to_vec()
}

fn sign_with(key: u64) -> impl Fn(&[u8]) -> Result<Vec<u8>, signature::Error> {
    move |m: &[u8]| Ok(toy_sig(key, m))
}

fn check_with(key: u64) -> impl Fn(&[u8], &[u8]) -> Result<(), signature::Error> {
    move |m: &[u8], s: &[u8]| {
        if toy_sig(key, m) == s {
            Ok(())
        } else {
            Err(signature::Error::new())
        }
    }
}

#[test]
fn prefixed_content_joins_with_colon() {
    assert_eq!(prefixed_content(b"PKG", b"hello"), b"PKG:hello".to_vec());
    assert_eq!(prefixed_content(b"", b""), b":".to_vec());
    assert_eq!(prefixed_content(b"A", b":x"), b"A::x".to_vec());
}

#[test]
fn record_prefixes() {
    assert_eq!(PackageRecord::prefix(), b"PKG");
    assert_eq!(OperatorRecord::prefix(), b"OP");
}

#[test]
fn record_encoding_round_trips() {
    for bytes in [&b""[..], &b"hello"[..], &[0u8, 255, 7][..]] {
        let p = pkg(bytes);
        assert_eq!(p.encode(), bytes.to_vec());
        assert_eq!(PackageRecord::decode(&p.encode()).unwrap(), p);
        let o = op(bytes);
        assert_eq!(OperatorRecord::decode(&o.encode()).unwrap(), o);
    }
}

#[test]
fn sign_hands_prefixed_encoding_to_key() {
    let sig = pkg(b"hello").sign(|m: &[u8]| Ok(m.to_vec())).unwrap();
    assert_eq!(sig, b"PKG:hello".to_vec());
    let sig = op(b"hello").sign(|m: &[u8]| Ok(m.to_vec())).unwrap();
    assert_eq!(sig, b"OP:hello".to_vec());
    let checked = PackageRecord::verify(
        |m: &[u8], s: &[u8]| {
            if m == b"PKG:hi" && s == b"sig" {
                Ok(())
            } else {
                Err(signature::Error::new())
            }
        },
        b"hi",
        b"sig",
    );
    assert!(checked.is_ok());
}

#[test]
fn seal_then_open_hello() {
    let env = Envelope::seal(pkg(b"hello"), "key-1".to_string(), sign_with(11)).unwrap();
    assert_eq!(env.content(), &pkg(b"hello"));
    assert_eq!(env.content_bytes(), b"hello");
    assert_eq!(env.key_id(), "key-1");
    assert_eq!(env.signature(), toy_sig(11, b"PKG:hello").as_slice());

    let opened = Envelope::<PackageRecord>::open(
        env.content_bytes().to_vec(),
        env.key_id().to_string(),
        env.signature().to_vec(),
        check_with(11),
    );
    match opened {
        Ok(e) => {
            assert_eq!(e.content(), &pkg(b"hello"));
            assert_eq!(e.key_id(), "key-1");
        }
        Err(_) => panic!("a sealed envelope must open"),
    }
}

#[test]
fn flipped_signature_byte_fails_verification() {
    let env = Envelope::seal(pkg(b"hello"), "key-1".to_string(), sign_with(11)).unwrap();
    let mut sig = env.signature().to_vec();
    sig[0] ^= 1;
    let opened =
        Envelope::<PackageRecord>::open(env.content_bytes().to_vec(), "key-1".to_string(), sig, check_with(11));
    assert!(matches!(opened, Err(OpenError::Signature(_))));
}

#[test]
fn unrelated_public_key_fails_verification() {
    let env = Envelope::seal(pkg(b"hello"), "key-1".to_string(), sign_with(11)).unwrap();
    let opened = Envelope::<PackageRecord>::open(
        env.content_bytes().to_vec(),
        "key-1".to_string(),
        env.signature().to_vec(),
        check_with(12),
    );
    assert!(matches!(opened, Err(OpenError::Signature(_))));
}

#[test]
fn signature_for_one_type_fails_for_another() {
    let env = Envelope::seal(pkg(b"same"), "k".to_string(), sign_with(5)).unwrap();
    let as_op = Envelope::<OperatorRecord>::open(
        env.content_bytes().to_vec(),
        "k".to_string(),
        env.signature().to_vec(),
        check_with(5),
    );
    assert!(matches!(as_op, Err(OpenError::Signature(_))));
    let as_pkg = Envelope::<PackageRecord>::open(
        env.content_bytes().to_vec(),
        "k".to_string(),
        env.signature().to_vec(),
        check_with(5),
    );
    assert!(as_pkg.is_ok());
}

#[test]
fn from_parts_follows_the_signature_check() {
    let ok = Envelope::<OperatorRecord>::from_parts(b"hi".to_vec(), "k".to_string(), vec![1, 2], Ok(()));
    match ok {
        Ok(e) => {
            assert_eq!(e.content(), &op(b"hi"));
            assert_eq!(e.content_bytes(), b"hi");
            assert_eq!(e.signature(), &[1, 2]);
        }
        Err(_) => panic!("decodable content with a good check must open"),
    }
    let bad = Envelope::<OperatorRecord>::from_parts(
        b"hi".to_vec(),
        "k".to_string(),
        vec![1, 2],
        Err(signature::Error::new()),
    );
    assert!(matches!(bad, Err(OpenError::Signature(_))));
}

#[test]
fn seal_reports_signing_failure() {
    let r = Envelope::seal(pkg(b"x"), "k".to_string(), |_: &[u8]| Err(signature::Error::new()));
    assert!(r.is_err());
}
