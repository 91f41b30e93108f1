//! What the exit's registration loop computes each round: the descriptor to
//! publish — the configured listen endpoints rewritten to the discovered
//! public IP with ports preserved, zero load, and an expiry one TTL ahead —
//! sealed into a signed envelope and bound to the broker with a MAC.

use crate::crypto::{blake3_hash_of, blake3_keyed_of, ed25519_pub_of, ed25519_sig_of};
use crate::directory::{enc_exit_descriptor, ExitDescriptor};
use crate::envelope::{
    domain_exit_descriptor, domain_exit_descriptor_bytes, enc_signed_envelope, signed_msg,
    MacEnvelope, SignedEnvelope,
};
use crate::net::{Country, Endpoint, IpAddrBytes};
use crate::DESCRIPTOR_TTL_SECS;
use vstd::prelude::*;

verus! {

/// Builds the descriptor an exit publishes: both configured listen
/// endpoints carry the discovered public IP with their ports kept, the load
/// placeholder is zero, and the record expires one TTL from `now`.
pub fn build_exit_descriptor(
    c2e_listen: &Endpoint,
    b2e_listen: &Endpoint,
    public_ip: &IpAddrBytes,
    country: Country,
    city: Vec<u8>,
    now: u64,
) -> (r: ExitDescriptor)
    requires
        public_ip@.wf(),
        city@.len() <= u32::MAX,
        now + DESCRIPTOR_TTL_SECS <= u64::MAX,
    ensures
        r@.c2e_listen.ip == public_ip@,
        r@.c2e_listen.port == c2e_listen@.port,
        r@.b2e_listen.ip == public_ip@,
        r@.b2e_listen.port == b2e_listen@.port,
        r@.country == country,
        r@.city == city@,
        r@.load_millis == 0,
        r@.expiry == now + DESCRIPTOR_TTL_SECS,
        r@.wf(),
{
    ExitDescriptor {
        c2e_listen: c2e_listen.with_ip(public_ip.clone_ip()),
        b2e_listen: b2e_listen.with_ip(public_ip.clone_ip()),
        country,
        city,
        load_millis: 0,
        expiry: now + DESCRIPTOR_TTL_SECS,
    }
}

/// Seals a descriptor for upload: signed under the exit-descriptor domain
/// with the exit's signing key, then MAC-bound to the broker under the hash
/// of the shared auth token.
pub fn seal_exit_descriptor(
    descriptor: &ExitDescriptor,
    signing_sk: &Vec<u8>,
    auth_token: &Vec<u8>,
) -> (r: MacEnvelope)
    requires
        descriptor@.wf(),
        descriptor@.city.len() + 100 <= u32::MAX,
        signing_sk@.len() == 32,
    ensures
        r.inner@.payload == enc_exit_descriptor(descriptor@),
        r.inner@.pubkey == ed25519_pub_of(signing_sk@),
        r.inner@.signature == ed25519_sig_of(
            signing_sk@,
            signed_msg(domain_exit_descriptor(), enc_exit_descriptor(descriptor@)),
        ),
        r.mac@ == blake3_keyed_of(blake3_hash_of(auth_token@), enc_signed_envelope(r.inner@)),
{
    let payload = descriptor.encode();
    let domain = domain_exit_descriptor_bytes();
    proof {
        crate::codec::lemma_enc_lens();
        assert(enc_exit_descriptor(descriptor@).len() <= descriptor@.city.len() + 100);
    }
    let signed = SignedEnvelope::seal(payload, &domain, signing_sk);
    MacEnvelope::seal(signed, auth_token)
}

} // verus!
