//! Envelopes: a payload signed under a domain separator, verified against a
//! pinned broker key or accepted from any signer when no pin is configured;
//! and the MAC envelope that additionally authenticates a signed envelope to
//! the broker under a shared token.

use crate::codec::{
    dec_bytes, dec_var_bytes, enc_var_bytes, lemma_dec_var_bytes, lemma_nested_subrange,
    push_bytes, push_var_bytes, read_bytes, read_var_bytes,
};
use crate::crypto::{
    blake3_hash, blake3_hash_of, blake3_keyed_hash, blake3_keyed_of, ed25519_pub_of, ed25519_sig_of,
    ed25519_sign, ed25519_verifies, ed25519_verify, ed25519_public,
};
use crate::net::{byte_vecs_equal, clone_byte_vec};
use vstd::prelude::*;

verus! {

/// The domain separator under which exit descriptors and exit lists are
/// signed, keeping their signatures out of every other context.
pub open spec fn domain_exit_descriptor() -> Seq<u8> {
    seq![101u8, 120u8, 105u8, 116u8, 45u8, 100u8, 101u8, 115u8, 99u8, 114u8, 105u8, 112u8, 116u8, 111u8, 114u8]
}

/// The bytes of the exit-descriptor domain separator.
pub fn domain_exit_descriptor_bytes() -> (r: Vec<u8>)
    ensures
        r@ == domain_exit_descriptor(),
{
    let v: Vec<u8> = vec![101, 120, 105, 116, 45, 100, 101, 115, 99, 114, 105, 112, 116, 111, 114];
    assert(v@ =~= domain_exit_descriptor());
    v
}

/// What gets signed: the domain separator, then the payload's encoding.
pub open spec fn signed_msg(domain: Seq<u8>, payload: Seq<u8>) -> Seq<u8> {
    domain + payload
}

/// A payload with a detached signature over it under a domain separator,
/// beside the signer's verifying key.
#[derive(Debug, PartialEq, Eq)]
pub struct SignedEnvelope {
    pub payload: Vec<u8>,
    pub pubkey: Vec<u8>,
    pub signature: Vec<u8>,
}

pub ghost struct SignedEnvelopeView {
    pub payload: Seq<u8>,
    pub pubkey: Seq<u8>,
    pub signature: Seq<u8>,
}

impl View for SignedEnvelope {
    type V = SignedEnvelopeView;

    open spec fn view(&self) -> SignedEnvelopeView {
        SignedEnvelopeView {
            payload: self.payload@,
            pubkey: self.pubkey@,
            signature: self.signature@,
        }
    }
}

impl SignedEnvelopeView {
    pub open spec fn wf(self) -> bool {
        self.pubkey.len() == 32 && self.signature.len() == 64 && self.payload.len() <= u32::MAX
    }
}

/// Whether a key pin accepts a signer: a configured pin demands that exact
/// key; no pin accepts any signer.
pub open spec fn pin_accepts(pin: Option<Seq<u8>>, vk: Seq<u8>) -> bool {
    match pin {
        Some(k) => k == vk,
        None => true,
    }
}

/// Whether verification accepts an envelope under a domain and a pin.
pub open spec fn envelope_accepted(e: SignedEnvelopeView, domain: Seq<u8>, pin: Option<Seq<u8>>) -> bool {
    ed25519_verifies(e.pubkey, signed_msg(domain, e.payload), e.signature) && pin_accepts(
        pin,
        e.pubkey,
    )
}

impl SignedEnvelope {
    /// Signs `payload` under `domain` with the 32-byte signing key: the
    /// resulting envelope carries the signer's verifying key and a signature
    /// that verifies.
    pub fn seal(payload: Vec<u8>, domain: &Vec<u8>, signing_sk: &Vec<u8>) -> (r: SignedEnvelope)
        requires
            signing_sk@.len() == 32,
            payload@.len() <= u32::MAX,
        ensures
            r@.payload == payload@,
            r@.pubkey == ed25519_pub_of(signing_sk@),
            r@.signature == ed25519_sig_of(signing_sk@, signed_msg(domain@, payload@)),
            r@.wf(),
            envelope_accepted(r@, domain@, None),
            forall|pin: Option<Seq<u8>>|
                pin_accepts(pin, ed25519_pub_of(signing_sk@)) ==> envelope_accepted(
                    r@,
                    domain@,
                    pin,
                ),
    {
        let mut msg = clone_byte_vec(domain);
        push_bytes(&mut msg, payload.as_slice());
        let signature = ed25519_sign(signing_sk, &msg);
        let pubkey = ed25519_public(signing_sk);
        SignedEnvelope { payload, pubkey, signature }
    }

    /// Verifies the envelope under `domain`: true exactly when the
    /// signature verifies under the envelope's own key and the pin, where
    /// one is configured, names that key.
    pub fn verify(&self, domain: &Vec<u8>, pin: Option<&Vec<u8>>) -> (r: bool)
        requires
            self@.wf(),
        ensures
            r == envelope_accepted(
                self@,
                domain@,
                match pin {
                    Some(k) => Some(k@),
                    None => None,
                },
            ),
    {
        let mut msg = clone_byte_vec(domain);
        push_bytes(&mut msg, self.payload.as_slice());
        let sig_ok = ed25519_verify(&self.pubkey, &msg, &self.signature);
        let pin_ok = match pin {
            Some(k) => byte_vecs_equal(k.as_slice(), self.pubkey.as_slice()),
            None => true,
        };
        sig_ok && pin_ok
    }
}

/// Signing and then verifying under the producing key succeeds: an envelope
/// with the shape `seal` guarantees is accepted under the same domain by any
/// pin that names the signer (and by no pin at all).
pub proof fn lemma_sign_then_verify(
    e: SignedEnvelopeView,
    sk: Seq<u8>,
    domain: Seq<u8>,
    pin: Option<Seq<u8>>,
)
    requires
        e.pubkey == ed25519_pub_of(sk),
        ed25519_verifies(e.pubkey, signed_msg(domain, e.payload), e.signature),
        pin_accepts(pin, ed25519_pub_of(sk)),
    ensures
        envelope_accepted(e, domain, pin),
{
}

// ---------------------------------------------------------------------------
// The MAC envelope
// ---------------------------------------------------------------------------
/// The byte form of a signed envelope that the MAC covers.
pub open spec fn enc_signed_envelope(e: SignedEnvelopeView) -> Seq<u8> {
    enc_var_bytes(e.payload) + e.pubkey + e.signature
}

/// A signed envelope bound to the broker by a keyed hash under the hash of
/// the shared auth token.
#[derive(Debug, PartialEq, Eq)]
pub struct MacEnvelope {
    pub inner: SignedEnvelope,
    pub mac: Vec<u8>,
}

impl MacEnvelope {
    /// Wraps a signed envelope for the broker: the MAC is the keyed BLAKE3
    /// hash of the envelope's byte form under the BLAKE3 hash of the auth
    /// token.
    pub fn seal(inner: SignedEnvelope, auth_token: &Vec<u8>) -> (r: MacEnvelope)
        requires
            inner@.wf(),
        ensures
            r.inner@ == inner@,
            r.mac@ == blake3_keyed_of(blake3_hash_of(auth_token@), enc_signed_envelope(inner@)),
    {
        let key = blake3_hash(auth_token.as_slice());
        let mut body: Vec<u8> = Vec::new();
        push_var_bytes(&mut body, inner.payload.as_slice());
        push_bytes(&mut body, inner.pubkey.as_slice());
        push_bytes(&mut body, inner.signature.as_slice());
        assert(body@ =~= enc_signed_envelope(inner@));
        let mac = blake3_keyed_hash(&key, body.as_slice());
        MacEnvelope { inner, mac }
    }

    /// Checks the MAC against a holder of the same auth token.
    pub fn check(&self, auth_token: &Vec<u8>) -> (r: bool)
        requires
            self.inner@.wf(),
        ensures
            r == (self.mac@ == blake3_keyed_of(
                blake3_hash_of(auth_token@),
                enc_signed_envelope(self.inner@),
            )),
    {
        let key = blake3_hash(auth_token.as_slice());
        let mut body: Vec<u8> = Vec::new();
        push_var_bytes(&mut body, self.inner.payload.as_slice());
        push_bytes(&mut body, self.inner.pubkey.as_slice());
        push_bytes(&mut body, self.inner.signature.as_slice());
        assert(body@ =~= enc_signed_envelope(self.inner@));
        let expect = blake3_keyed_hash(&key, body.as_slice());
        byte_vecs_equal(self.mac.as_slice(), expect.as_slice())
    }
}

/// Positional decoder for the byte form of a signed envelope.
pub open spec fn dec_signed_envelope(s: Seq<u8>, i: int) -> Option<(SignedEnvelopeView, int)> {
    match dec_var_bytes(s, i) {
        Some((payload, j)) => match dec_bytes(s, j, 32) {
            Some((pubkey, m)) => match dec_bytes(s, m, 64) {
                Some((signature, fin)) => Some(
                    (SignedEnvelopeView { payload, pubkey, signature }, fin),
                ),
                None => None,
            },
            None => None,
        },
        None => None,
    }
}

/// Decode-of-encode is the identity on signed envelopes.
pub proof fn lemma_signed_envelope_round_trip(e: SignedEnvelopeView)
    requires
        e.wf(),
    ensures
        dec_signed_envelope(enc_signed_envelope(e), 0) == Some(
            (e, enc_signed_envelope(e).len() as int),
        ),
{
    let whole = enc_signed_envelope(e);
    let e1 = enc_var_bytes(e.payload);
    let n: int = whole.len() as int;
    let m: int = e1.len() as int;
    assert(whole.subrange(0, n) =~= whole);
    assert(whole.subrange(0, m) =~= e1);
    lemma_nested_subrange(whole, 0, whole, 0, m);
    lemma_dec_var_bytes(e.payload, whole, 0);
    assert(whole.subrange(m, m + 32) =~= e.pubkey);
    assert(whole.subrange(m + 32, n) =~= e.signature);
}

impl SignedEnvelope {
    /// The byte form of the envelope: length-prefixed payload, then the
    /// 32-byte key and the 64-byte signature.
    pub fn encode(&self) -> (r: Vec<u8>)
        requires
            self@.wf(),
        ensures
            r@ == enc_signed_envelope(self@),
    {
        let mut out: Vec<u8> = Vec::new();
        push_var_bytes(&mut out, self.payload.as_slice());
        push_bytes(&mut out, self.pubkey.as_slice());
        push_bytes(&mut out, self.signature.as_slice());
        assert(out@ =~= enc_signed_envelope(self@));
        out
    }

    pub fn decode(s: &[u8]) -> (r: Option<SignedEnvelope>)
        ensures
            match r {
                Some(e) => dec_signed_envelope(s@, 0) matches Some((ev, _)) && ev == e@
                    && e@.wf(),
                None => dec_signed_envelope(s@, 0) is None,
            },
    {
        let (payload, j) = match read_var_bytes(s, 0) {
            Some(x) => x,
            None => {
                return None;
            },
        };
        let (pubkey, m) = match read_bytes(s, j, 32) {
            Some(x) => x,
            None => {
                return None;
            },
        };
        let (signature, _) = match read_bytes(s, m, 64) {
            Some(x) => x,
            None => {
                return None;
            },
        };
        Some(SignedEnvelope { payload, pubkey, signature })
    }
}

/// The byte form of a MAC envelope: the signed envelope, then the 32-byte
/// MAC.
pub open spec fn enc_mac_envelope(inner: SignedEnvelopeView, mac: Seq<u8>) -> Seq<u8> {
    enc_signed_envelope(inner) + mac
}

impl MacEnvelope {
    pub fn encode(&self) -> (r: Vec<u8>)
        requires
            self.inner@.wf(),
        ensures
            r@ == enc_mac_envelope(self.inner@, self.mac@),
    {
        let mut out = self.inner.encode();
        push_bytes(&mut out, self.mac.as_slice());
        out
    }
}

} // verus!
