//! Authentication of the TLS server by its public key.
//!
//! The server's P-256 key is read from its certificate, so that it can be shown and
//! copied into `pubkey=`. The signature of the handshake's CertificateVerify message
//! is checked under that key; where a key is pinned, the two have to be the same. A
//! certificate without a readable key is acceptable only where none is pinned, and
//! the connection is then encrypted but not authenticated.

use crate::autoconnect::state::PIN_MISMATCH;
use crate::text::{bytes_eq, find_bytes, lemma_occurs_at, lemma_occurs_at_is, occurs_at};
use vstd::prelude::*;
use vstd::utf8::{encode_utf8, is_ascii_chars, is_ascii_chars_encode_utf8};

verus! {

/// Why a handshake is refused.
#[derive(Clone, Copy, Debug, PartialEq, Eq, Structural)]
pub enum TlsError {
    InvalidCertificate,
    InvalidSignature,
    InvalidSignatureScheme,
    DecodeError,
}

/// The signature algorithm that the server announces.
#[derive(Clone, Copy, Debug, PartialEq, Eq, Structural)]
pub enum SignatureScheme {
    EcdsaSecp256r1Sha256,
    Unsupported,
}

/// Whether `key` is a P-256 public key in SEC1 encoding.
pub uninterp spec fn is_sec1_key(key: Seq<u8>) -> bool;

/// Whether `signature` is an ECDSA signature for P-256 in DER encoding.
pub uninterp spec fn is_der_signature(signature: Seq<u8>) -> bool;

/// Whether the SEC1 key `key` accepts the DER signature `signature` on `message`,
/// with SHA-256.
pub uninterp spec fn ecdsa_accepts(key: Seq<u8>, message: Seq<u8>, signature: Seq<u8>) -> bool;

/// `p256::ecdsa::VerifyingKey::from_sec1_bytes`: whether it takes these bytes depends
/// on them alone. Which encodings are valid is left to that crate.
#[verifier::external_body]
fn sec1_key(key: &[u8]) -> (r: bool)
    ensures
        r == is_sec1_key(key@),
{
    p256::ecdsa::VerifyingKey::from_sec1_bytes(key).is_ok()
}

/// `p256::ecdsa::Signature::from_der`: whether it takes these bytes depends on them
/// alone. Which encodings are valid is left to that crate.
#[verifier::external_body]
fn der_signature(signature: &[u8]) -> (r: bool)
    ensures
        r == is_der_signature(signature@),
{
    p256::ecdsa::Signature::from_der(signature).is_ok()
}

/// `Verifier::verify` of `p256::ecdsa::VerifyingKey`: whether the key accepts the
/// signature depends on the key, the message and the signature alone. When it does is
/// left to that crate.
#[verifier::external_body]
fn ecdsa_verify(key: &[u8], message: &[u8], signature: &[u8]) -> (r: bool)
    requires
        is_sec1_key(key@),
        is_der_signature(signature@),
    ensures
        r == ecdsa_accepts(key@, message@, signature@),
{
    match (
        p256::ecdsa::VerifyingKey::from_sec1_bytes(key),
        p256::ecdsa::Signature::from_der(signature),
    ) {
        (Ok(k), Ok(s)) => p256::ecdsa::signature::Verifier::verify(&k, message, &s).is_ok(),
        _ => false,
    }
}

/// The DER prefix of an uncompressed P-256 key: a BIT STRING of 66 bytes without
/// unused bits, and the prefix of the point.
pub open spec fn key_marker() -> Seq<u8> {
    seq![0x03u8, 0x42u8, 0x00u8, 0x04u8]
}

/// The uncompressed P-256 key (65 bytes) of the certificate `der`, which stands where
/// the marker first occurs.
pub open spec fn certificate_key(der: Seq<u8>) -> Option<Seq<u8>> {
    match occurs_at(der, key_marker()) {
        Some(i) => if i + 3 + 65 <= der.len() {
            Some(der.subrange(i + 3, i + 3 + 65))
        } else {
            None
        },
        None => None,
    }
}

/// A key that is found in a certificate is an uncompressed point.
pub proof fn certificate_key_is_a_point(der: Seq<u8>)
    ensures
        certificate_key(der) matches Some(k) ==> k.len() == 65 && k[0] == 4,
{
    lemma_occurs_at(der, key_marker());
    if let Some(i) = occurs_at(der, key_marker()) {
        assert(der.subrange(i, i + 4)[3] == key_marker()[3]);
    }
}

/// The bytes of a key, if there is one.
pub open spec fn key_of(key: Option<[u8; 65]>) -> Option<Seq<u8>> {
    match key {
        Some(k) => Some(k@),
        None => None,
    }
}

/// Extracts the uncompressed P-256 public key from a certificate in DER.
pub fn extract_p256_pubkey(der: &[u8]) -> (r: Option<[u8; 65]>)
    ensures
        key_of(r) == certificate_key(der@),
{
    let marker: Vec<u8> = vec![0x03, 0x42, 0x00, 0x04];
    assert(marker@ =~= key_marker());
    let i: usize = match find_bytes(der, marker.as_slice()) {
        Some(i) => i,
        None => {
            return None;
        },
    };
    assert(der@.len() == der.len());
    let start: usize = i + 3;
    if der.len() - start < 65 {
        return None;
    }
    let mut key: [u8; 65] = [0u8;65];
    let mut k: usize = 0;
    while k < 65
        invariant
            k <= 65,
            start + 65 <= der@.len(),
            forall|j: int| 0 <= j < k ==> key@[j] == der@[start + j],
        decreases 65 - k,
    {
        assert(der@.len() == der.len());
        key[k] = der[start + k];
        k = k + 1;
    }
    assert(key@ =~= der@.subrange(start as int, start + 65));
    Some(key)
}

/// The context string of a server's CertificateVerify.
pub const CONTEXT: &'static str = "TLS 1.3, server CertificateVerify";

/// What a TLS 1.3 server signs in its CertificateVerify: 64 spaces, the context
/// string, a zero byte, and the hash of the handshake so far.
pub open spec fn signed_content(digest: Seq<u8>) -> Seq<u8> {
    Seq::new(64, |i: int| 0x20u8) + encode_utf8(CONTEXT@) + seq![0u8] + digest
}

/// What a TLS 1.3 server signs for the handshake hash `digest`.
pub fn signed_data(digest: &[u8; 32]) -> (r: Vec<u8>)
    ensures
        r@ == signed_content(digest@),
        r@.len() == 130,
{
    proof {
        reveal_strlit("TLS 1.3, server CertificateVerify");
        assert(is_ascii_chars(CONTEXT@));
        is_ascii_chars_encode_utf8(CONTEXT@);
    }
    let mut r: Vec<u8> = Vec::new();
    let mut i: usize = 0;
    while i < 64
        invariant
            i <= 64,
            r@ =~= Seq::new(i as nat, |i: int| 0x20u8),
        decreases 64 - i,
    {
        r.push(0x20);
        i = i + 1;
    }
    r.extend_from_slice(CONTEXT.as_bytes());
    r.push(0);
    r.extend_from_slice(digest);
    assert(r@ =~= signed_content(digest@));
    r
}

/// Different handshakes sign different data.
pub proof fn signed_content_is_unique(a: Seq<u8>, b: Seq<u8>)
    requires
        signed_content(a) == signed_content(b),
    ensures
        a == b,
{
    let n = 64 + encode_utf8(CONTEXT@).len() + 1;
    assert(signed_content(a).skip(n as int) =~= a);
    assert(signed_content(b).skip(n as int) =~= b);
}

/// Checks the server's certificate and signature during one handshake.
#[derive(Clone, Copy)]
pub struct PinnedVerifier {
    /// The only key that is acceptable, if one is configured.
    pub pin: Option<[u8; 65]>,
    /// The key of the server's certificate.
    pub server_key: Option<[u8; 65]>,
    /// The SHA-256 hash of the handshake up to the certificate.
    pub transcript: Option<[u8; 32]>,
}

/// What a [`PinnedVerifier`] knows.
pub struct VerifierView {
    pub pin: Option<Seq<u8>>,
    pub server_key: Option<Seq<u8>>,
    pub transcript: Option<Seq<u8>>,
}

/// What the checks of a signature come to: whether the key and the signature could be
/// read, and whether the key accepts the signature.
pub open spec fn judged(key_ok: bool, signature_ok: bool, accepted: bool) -> Result<(), TlsError> {
    if !key_ok || !signature_ok {
        Err(TlsError::DecodeError)
    } else if !accepted {
        Err(TlsError::InvalidSignature)
    } else {
        Ok(())
    }
}

/// What the checks of a signature come to.
pub fn judge(key_ok: bool, signature_ok: bool, accepted: bool) -> (r: Result<(), TlsError>)
    ensures
        r == judged(key_ok, signature_ok, accepted),
{
    if !key_ok || !signature_ok {
        Err(TlsError::DecodeError)
    } else if !accepted {
        Err(TlsError::InvalidSignature)
    } else {
        Ok(())
    }
}

impl VerifierView {
    /// Whether the server presented another key than the pinned one.
    pub open spec fn mismatch(self) -> bool {
        self.pin is Some && self.server_key is Some && self.pin != self.server_key
    }

    /// Whether the signature on the handshake hash is looked at.
    pub open spec fn reads_transcript(self) -> bool {
        self.server_key is Some && !self.mismatch()
    }

    /// What is known once a signature has been looked at.
    pub open spec fn spent(self) -> VerifierView {
        if self.reads_transcript() {
            VerifierView { transcript: None, ..self }
        } else {
            self
        }
    }

    /// Before the handshake, with this pin.
    pub open spec fn fresh(pin: Option<Seq<u8>>) -> VerifierView {
        VerifierView { pin, server_key: None, transcript: None }
    }

    /// Once the server's certificate has been seen, with the handshake hash up to it.
    pub open spec fn seen(self, transcript: Seq<u8>, der: Option<Seq<u8>>) -> VerifierView {
        VerifierView {
            pin: self.pin,
            server_key: match der {
                Some(d) => certificate_key(d),
                None => None,
            },
            transcript: Some(transcript),
        }
    }

    /// The published status once a signature has been looked at.
    pub open spec fn status_after(self, status: u8) -> u8 {
        if self.mismatch() {
            PIN_MISMATCH
        } else {
            status
        }
    }

    /// What a signature comes to.
    pub open spec fn verified(self, scheme: SignatureScheme, signature: Seq<u8>) -> Result<
        (),
        TlsError,
    > {
        match self.server_key {
            None => if self.pin is Some {
                Err(TlsError::InvalidCertificate)
            } else {
                Ok(())
            },
            Some(key) => if self.mismatch() {
                Err(TlsError::InvalidCertificate)
            } else {
                match (self.transcript, scheme) {
                    (None, _) => Err(TlsError::DecodeError),
                    (Some(_), SignatureScheme::Unsupported) => Err(
                        TlsError::InvalidSignatureScheme,
                    ),
                    (Some(digest), SignatureScheme::EcdsaSecp256r1Sha256) => judged(
                        is_sec1_key(key),
                        is_der_signature(signature),
                        ecdsa_accepts(key, signed_content(digest), signature),
                    ),
                }
            },
        }
    }
}

impl View for PinnedVerifier {
    type V = VerifierView;

    open spec fn view(&self) -> VerifierView {
        VerifierView {
            pin: key_of(self.pin),
            server_key: key_of(self.server_key),
            transcript: match self.transcript {
                Some(d) => Some(d@),
                None => None,
            },
        }
    }
}

impl PinnedVerifier {
    /// A verifier for one handshake.
    pub fn new(pin: Option<[u8; 65]>) -> (r: PinnedVerifier)
        ensures
            r@ == VerifierView::fresh(key_of(pin)),
            r@ == (VerifierView { pin: key_of(pin), server_key: None, transcript: None }),
    {
        PinnedVerifier { pin, server_key: None, transcript: None }
    }

    /// Takes note of the server's key and of the handshake hash. `der` is the server's
    /// own certificate, the first of the chain, if it has one in X.509 form.
    pub fn verify_certificate(&mut self, transcript: [u8; 32], der: Option<&[u8]>)
        ensures
            final(self)@ == old(self)@.seen(
                transcript@,
                match der {
                    Some(d) => Some(d@),
                    None => None,
                },
            ),
            final(self)@ == (VerifierView {
                pin: old(self)@.pin,
                server_key: match der {
                    Some(d) => certificate_key(d@),
                    None => None,
                },
                transcript: Some(transcript@),
            }),
    {
        self.server_key = match der {
            Some(d) => extract_p256_pubkey(d),
            None => None,
        };
        self.transcript = Some(transcript);
    }

    /// Checks the signature of the server's CertificateVerify message. Sets `status`
    /// where another key than the pinned one was presented.
    pub fn verify_signature(
        &mut self,
        scheme: SignatureScheme,
        signature: &[u8],
        status: &mut u8,
    ) -> (r: Result<(), TlsError>)
        ensures
            r == old(self)@.verified(scheme, signature@),
            *final(status) == old(self)@.status_after(*old(status)),
            *final(status) == if old(self)@.mismatch() {
                PIN_MISMATCH
            } else {
                *old(status)
            },
            final(self)@ == old(self)@.spent(),
    {
        let key: [u8; 65] = match self.server_key {
            Some(key) => key,
            None => {
                return if self.pin.is_some() {
                    Err(TlsError::InvalidCertificate)
                } else {
                    Ok(())
                };
            },
        };
        if let Some(pin) = self.pin {
            if !bytes_eq(&pin, &key) {
                *status = PIN_MISMATCH;
                return Err(TlsError::InvalidCertificate);
            }
        }
        let digest: [u8; 32] = match self.transcript {
            Some(d) => d,
            None => {
                return Err(TlsError::DecodeError);
            },
        };
        self.transcript = None;
        match scheme {
            SignatureScheme::EcdsaSecp256r1Sha256 => {
                let message = signed_data(&digest);
                let key_ok = sec1_key(&key);
                let signature_ok = der_signature(signature);
                let accepted = if key_ok && signature_ok {
                    ecdsa_verify(&key, message.as_slice(), signature)
                } else {
                    false
                };
                judge(key_ok, signature_ok, accepted)
            },
            SignatureScheme::Unsupported => Err(TlsError::InvalidSignatureScheme),
        }
    }
}

/// Where a key is pinned, a handshake passes only if the server presented that key and
/// signed this very handshake with it.
pub proof fn pinned_server_is_authentic(
    v: VerifierView,
    scheme: SignatureScheme,
    signature: Seq<u8>,
)
    requires
        v.pin is Some,
        v.verified(scheme, signature) is Ok,
    ensures
        v.server_key == v.pin,
        v.transcript is Some,
        ecdsa_accepts(v.pin.unwrap(), signed_content(v.transcript.unwrap()), signature),
{
}

/// A server with another key than the pinned one is refused, whatever it signs, and the
/// published status says so. No other server changes the status.
pub proof fn other_key_is_refused(
    v: VerifierView,
    scheme: SignatureScheme,
    signature: Seq<u8>,
    status: u8,
)
    ensures
        v.pin matches Some(pin) && v.server_key matches Some(key) && pin != key ==> v.verified(
            scheme,
            signature,
        ) == Err::<(), TlsError>(TlsError::InvalidCertificate) && v.status_after(status) == 7,
        v.pin is None || v.server_key is None || v.pin == v.server_key ==> v.status_after(status)
            == status,
{
}

/// A server that signs this handshake with the key of its certificate is let in, with
/// that key pinned and without a pin.
pub proof fn honest_server_is_accepted(
    v: VerifierView,
    key: Seq<u8>,
    digest: Seq<u8>,
    signature: Seq<u8>,
)
    requires
        v.server_key == Some(key),
        v.pin is None || v.pin == Some(key),
        v.transcript == Some(digest),
        is_sec1_key(key),
        is_der_signature(signature),
        ecdsa_accepts(key, signed_content(digest), signature),
    ensures
        v.verified(SignatureScheme::EcdsaSecp256r1Sha256, signature) == Ok::<(), TlsError>(()),
{
}

/// What a refused server did wrong, with its key pinned or without a pin: a signature of
/// another kind, a key or a signature that cannot be read, or a signature that the key
/// does not accept.
pub proof fn refusals_have_their_reason(
    v: VerifierView,
    key: Seq<u8>,
    digest: Seq<u8>,
    scheme: SignatureScheme,
    signature: Seq<u8>,
)
    requires
        v.server_key == Some(key),
        v.pin is None || v.pin == Some(key),
        v.transcript == Some(digest),
    ensures
        v.verified(scheme, signature) == Err::<(), TlsError>(TlsError::InvalidSignatureScheme)
            <==> scheme == SignatureScheme::Unsupported,
        scheme == SignatureScheme::EcdsaSecp256r1Sha256 ==> (v.verified(scheme, signature) == Err::<
            (),
            TlsError,
        >(TlsError::DecodeError) <==> !(is_sec1_key(key) && is_der_signature(signature))),
        scheme == SignatureScheme::EcdsaSecp256r1Sha256 && is_sec1_key(key) && is_der_signature(
            signature,
        ) && !ecdsa_accepts(key, signed_content(digest), signature) ==> v.verified(scheme, signature)
            == Err::<(), TlsError>(TlsError::InvalidSignature),
        v.verified(scheme, signature) is Ok ==> scheme == SignatureScheme::EcdsaSecp256r1Sha256
            && ecdsa_accepts(key, signed_content(digest), signature),
{
}

/// With a pin, a certificate without a readable key is refused.
pub proof fn pin_needs_a_key(v: VerifierView, scheme: SignatureScheme, signature: Seq<u8>)
    requires
        v.pin is Some,
        v.server_key is None,
    ensures
        v.verified(scheme, signature) == Err::<(), TlsError>(TlsError::InvalidCertificate),
{
}

/// A whole handshake: the pin stays, the key is the one of the certificate just seen, and
/// the signature is held against the hash that came with it, whatever was seen before.
pub proof fn handshake_uses_its_own_certificate(
    v: VerifierView,
    digest: Seq<u8>,
    der: Seq<u8>,
    pin: Option<Seq<u8>>,
)
    ensures
        v.seen(digest, Some(der)).pin == v.pin,
        v.seen(digest, Some(der)).server_key == certificate_key(der),
        v.seen(digest, Some(der)).transcript == Some(digest),
        v.seen(digest, None).server_key is None,
        v.seen(digest, None).transcript == Some(digest),
        v.seen(digest, None).pin == v.pin,
        v.spent().pin == v.pin,
        v.spent().server_key == v.server_key,
        VerifierView::fresh(pin).pin == pin,
        VerifierView::fresh(pin).server_key is None,
        VerifierView::fresh(pin).transcript is None,
{
}

/// What is signed, byte by byte.
pub proof fn signed_content_layout(digest: Seq<u8>)
    requires
        digest.len() == 32,
    ensures
        signed_content(digest).len() == 130,
        forall|i: int| 0 <= i < 64 ==> #[trigger] signed_content(digest)[i] == 0x20,
        forall|i: int|
            0 <= i < 33 ==> signed_content(digest)[64 + i]
                == #[trigger] "TLS 1.3, server CertificateVerify"@[i] as u8,
        signed_content(digest)[97] == 0,
        signed_content(digest).skip(98) == digest,
{
    reveal_strlit("TLS 1.3, server CertificateVerify");
    assert(is_ascii_chars(CONTEXT@));
    is_ascii_chars_encode_utf8(CONTEXT@);
    assert(signed_content(digest).skip(98) =~= digest);
}

/// The key of a certificate is found behind the header of its BIT STRING, wherever that
/// stands and whatever follows.
pub proof fn key_is_found(front: Seq<u8>, key: Seq<u8>, back: Seq<u8>)
    requires
        key.len() == 65,
        key[0] == 4,
        forall|j: int|
            0 <= j < front.len() ==> !marked_at(
                front + seq![0x03u8, 0x42u8, 0x00u8] + key + back,
                j,
            ),
    ensures
        certificate_key(front + seq![0x03u8, 0x42u8, 0x00u8] + key + back) == Some(key),
{
    let der = front + seq![0x03u8, 0x42u8, 0x00u8] + key + back;
    let n = front.len() as int;
    assert(der.subrange(n, n + 4) =~= key_marker());
    assert forall|j: int| 0 <= j < n implies #[trigger] der.subrange(j, j + key_marker().len())
        != key_marker() by {
        let w = der.subrange(j, j + 4);
        assert(!marked_at(der, j));
        assert(w[0] == der[j] && w[1] == der[j + 1] && w[2] == der[j + 2] && w[3] == der[j + 3]);
        assert(key_marker()[0] == 3 && key_marker()[1] == 0x42 && key_marker()[2] == 0
            && key_marker()[3] == 4);
    }
    lemma_occurs_at_is(der, key_marker(), n);
    assert(der.subrange(n + 3, n + 3 + 65) =~= key);
}

/// Whether the bytes 03 42 00 04 stand at `j`.
pub open spec fn marked_at(der: Seq<u8>, j: int) -> bool {
    der[j] == 0x03 && der[j + 1] == 0x42 && der[j + 2] == 0x00 && der[j + 3] == 0x04
}

/// A key is read only from behind the header of its BIT STRING.
pub proof fn key_has_its_header(der: Seq<u8>)
    ensures
        certificate_key(der) matches Some(k) ==> exists|i: int|
            0 <= i && i + 68 <= der.len() && #[trigger] marked_at(der, i) && k == der.subrange(
                i + 3,
                i + 68,
            ) && forall|j: int| 0 <= j < i ==> !#[trigger] marked_at(der, j),
{
    lemma_occurs_at(der, key_marker());
    if let Some(i) = occurs_at(der, key_marker()) {
        let w = der.subrange(i, i + 4);
        assert(w[0] == der[i] && w[1] == der[i + 1] && w[2] == der[i + 2] && w[3] == der[i + 3]);
        assert(marked_at(der, i));
        assert forall|j: int| 0 <= j < i implies !#[trigger] marked_at(der, j) by {
            if marked_at(der, j) {
                assert(der.subrange(j, j + key_marker().len()) =~= key_marker());
            }
        }
    }
}

/// Without a pin, a certificate without a readable key is let pass unauthenticated; a
/// server with a readable key still has to sign with it.
pub proof fn unpinned_server_signs_with_its_key(
    v: VerifierView,
    scheme: SignatureScheme,
    signature: Seq<u8>,
)
    requires
        v.pin is None,
    ensures
        v.server_key is None ==> v.verified(scheme, signature) is Ok,
        v.server_key is Some && v.verified(scheme, signature) is Ok ==> v.transcript is Some
            && ecdsa_accepts(
            v.server_key.unwrap(),
            signed_content(v.transcript.unwrap()),
            signature,
        ),
{
}

/// A handshake hash serves for one signature: a second one is refused.
pub proof fn transcript_is_used_once(
    v: VerifierView,
    scheme: SignatureScheme,
    signature: Seq<u8>,
)
    requires
        v.server_key is Some,
        v.pin is None || v.pin == v.server_key,
    ensures
        v.spent().verified(scheme, signature) == Err::<(), TlsError>(TlsError::DecodeError),
{
}

} // verus!
