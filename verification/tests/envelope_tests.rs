use geph5_core::directory::{ExitDescriptor, ExitEntry};
use geph5_core::envelope::{domain_exit_descriptor_bytes, MacEnvelope, SignedEnvelope};
use geph5_core::net::{Country, Endpoint, IpAddrBytes};
use geph5_core::register::{build_exit_descriptor, seal_exit_descriptor};

fn signing_key() -> Vec<u8> {
    (100u8..132).collect()
}

#[test]
fn sign_then_verify_succeeds() {
    let sk = signing_key();
    let domain = domain_exit_descriptor_bytes();
    let env = SignedEnvelope::seal(b"payload bytes".to_vec(), &domain, &sk);
    assert!(env.verify(&domain, None));
    let pin = env.pubkey.clone();
    assert!(env.verify(&domain, Some(&pin)));
}

#[test]
fn tampered_payload_fails_verification() {
    let sk = signing_key();
    let domain = domain_exit_descriptor_bytes();
    let mut env = SignedEnvelope::seal(b"payload bytes".to_vec(), &domain, &sk);
    for i in 0..env.payload.len() {
        let mut tampered_payload = env.payload.clone();
        tampered_payload[i] ^= 1;
        let tampered = SignedEnvelope {
            payload: tampered_payload,
            pubkey: env.pubkey.clone(),
            signature: env.signature.clone(),
        };
        assert!(!tampered.verify(&domain, None));
    }
    // the untampered envelope still verifies
    assert!(env.verify(&domain, None));
    // a different domain separator also fails
    let other_domain = b"some-other-domain".to_vec();
    assert!(!env.verify(&other_domain, None));
    // and a pin naming a different key fails
    let mut wrong_pin = env.pubkey.clone();
    wrong_pin[0] ^= 1;
    assert!(!env.verify(&domain, Some(&wrong_pin)));
    // sanity: mutating the envelope's signature fails too
    env.signature[10] ^= 1;
    assert!(!env.verify(&domain, None));
}

#[test]
fn mac_envelope_binds_to_token() {
    let sk = signing_key();
    let domain = domain_exit_descriptor_bytes();
    let env = SignedEnvelope::seal(b"descriptor".to_vec(), &domain, &sk);
    let token = b"shared auth token".to_vec();
    let mac_env = MacEnvelope::seal(env, &token);
    assert!(mac_env.check(&token));
    assert!(!mac_env.check(&b"other token".to_vec()));
}

#[test]
fn registration_descriptor_rewrites_ips() {
    let c2e = Endpoint { ip: IpAddrBytes::V4(vec![0, 0, 0, 0]), port: 9000 };
    let b2e = Endpoint { ip: IpAddrBytes::V4(vec![0, 0, 0, 0]), port: 9001 };
    let public_ip = IpAddrBytes::V4(vec![203, 0, 113, 7]);
    let now: u64 = 1_700_000_000;
    let d = build_exit_descriptor(
        &c2e,
        &b2e,
        &public_ip,
        Country { a: b'U', b: b'S' },
        b"nyc".to_vec(),
        now,
    );
    assert_eq!(d.c2e_listen, Endpoint { ip: IpAddrBytes::V4(vec![203, 0, 113, 7]), port: 9000 });
    assert_eq!(d.b2e_listen, Endpoint { ip: IpAddrBytes::V4(vec![203, 0, 113, 7]), port: 9001 });
    assert_eq!(d.load_millis, 0);
    assert_eq!(d.expiry, now + 600);
}

#[test]
fn sealed_registration_upload_verifies() {
    let c2e = Endpoint { ip: IpAddrBytes::V4(vec![0, 0, 0, 0]), port: 9000 };
    let b2e = Endpoint { ip: IpAddrBytes::V4(vec![0, 0, 0, 0]), port: 9001 };
    let public_ip = IpAddrBytes::V4(vec![198, 51, 100, 2]);
    let d = build_exit_descriptor(
        &c2e,
        &b2e,
        &public_ip,
        Country { a: b'D', b: b'E' },
        b"berlin".to_vec(),
        1000,
    );
    let sk = signing_key();
    let token = b"token".to_vec();
    let sealed = seal_exit_descriptor(&d, &sk, &token);
    assert!(sealed.check(&token));
    let domain = domain_exit_descriptor_bytes();
    assert!(sealed.inner.verify(&domain, None));
    // the payload is the descriptor's encoding and decodes back to it
    let back = ExitDescriptor::decode(&sealed.inner.payload).expect("decodes");
    assert_eq!(back, d);
}

#[test]
fn entry_carries_descriptor_and_key() {
    let d = ExitDescriptor {
        c2e_listen: Endpoint { ip: IpAddrBytes::V4(vec![1, 1, 1, 1]), port: 1 },
        b2e_listen: Endpoint { ip: IpAddrBytes::V4(vec![1, 1, 1, 2]), port: 2 },
        country: Country { a: b'F', b: b'R' },
        city: b"paris".to_vec(),
        load_millis: 7,
        expiry: 9,
    };
    let e = ExitEntry { pubkey: vec![5u8; 32], descriptor: d };
    assert_eq!(e.pubkey.len(), 32);
    assert_eq!(e.descriptor.load_millis, 7);
}

#[test]
fn signed_envelope_byte_round_trip() {
    let sk = signing_key();
    let domain = domain_exit_descriptor_bytes();
    let env = SignedEnvelope::seal(b"some payload".to_vec(), &domain, &sk);
    let bytes = env.encode();
    let back = SignedEnvelope::decode(&bytes).expect("decodes");
    assert_eq!(back, env);
    assert!(SignedEnvelope::decode(&bytes[..bytes.len() - 1]).is_none());
}
