use ed25519_dalek::Signer;
use ed25519_dalek::SigningKey;
use geph5_core::handshake::{
    client_finish, client_start, exit_respond, ClientCryptHello, ClientHello, ExitHello,
    ExitHelloInner, HandshakeError,
};

fn exit_signing_key() -> Vec<u8> {
    (7u8..39).collect()
}

fn exit_verifying_key(sk: &Vec<u8>) -> Vec<u8> {
    let arr: [u8; 32] = sk.as_slice().try_into().unwrap();
    SigningKey::from_bytes(&arr).verifying_key().to_bytes().to_vec()
}

#[test]
fn x25519_handshake_mutual_key_agreement() {
    // client opens with an ephemeral key, exit answers in kind and signs;
    // both sides must hold identical directional keys
    let (client_hello, client_secret) = client_start(false);
    assert!(matches!(client_hello.crypt_hello, ClientCryptHello::X25519(_)));

    let signing_sk = exit_signing_key();
    let exit_esk: Vec<u8> = (50u8..82).collect();
    let (exit_hello, exit_keys) =
        exit_respond(&client_hello, None, &exit_esk, &signing_sk).expect("exit answers");
    let exit_keys = exit_keys.expect("keys derived");

    let vk = exit_verifying_key(&signing_sk);
    let client_keys = client_finish(&client_hello, &client_secret, &exit_hello, &vk, None)
        .expect("client accepts")
        .expect("keys derived");

    assert_eq!(client_keys.c2e, exit_keys.c2e);
    assert_eq!(client_keys.e2c, exit_keys.e2c);
    assert_ne!(client_keys.c2e, client_keys.e2c);
    assert_eq!(client_keys.c2e.len(), 32);
}

#[test]
fn bit_flip_in_exit_ephemeral_fails_signature() {
    let (client_hello, client_secret) = client_start(false);
    let signing_sk = exit_signing_key();
    let exit_esk: Vec<u8> = (50u8..82).collect();
    let (exit_hello, _) =
        exit_respond(&client_hello, None, &exit_esk, &signing_sk).expect("exit answers");
    let vk = exit_verifying_key(&signing_sk);

    // flip one bit of the exit's ephemeral key: the signature covers it
    let tampered_inner = match &exit_hello.inner {
        ExitHelloInner::X25519(k) => {
            let mut k2 = k.clone();
            k2[0] ^= 1;
            ExitHelloInner::X25519(k2)
        },
        _ => panic!("expected an x25519 answer"),
    };
    let tampered = ExitHello { inner: tampered_inner, signature: exit_hello.signature.clone() };
    let r = client_finish(&client_hello, &client_secret, &tampered, &vk, None);
    assert!(matches!(r, Err(HandshakeError::BadSignature)));
}

#[test]
fn shared_secret_challenge_path() {
    let transport_secret: Vec<u8> = (200u8..232).collect();
    let (client_hello, _challenge) = client_start(true);
    assert!(matches!(client_hello.crypt_hello, ClientCryptHello::SharedSecretChallenge(_)));

    let signing_sk = exit_signing_key();
    let exit_esk: Vec<u8> = (50u8..82).collect();
    let (exit_hello, keys) =
        exit_respond(&client_hello, Some(&transport_secret), &exit_esk, &signing_sk)
            .expect("exit answers");
    assert!(keys.is_none());
    assert!(matches!(exit_hello.inner, ExitHelloInner::SharedSecretResponse(_)));

    let vk = exit_verifying_key(&signing_sk);
    let client_secret_placeholder = vec![0u8; 32];
    let r = client_finish(
        &client_hello,
        &client_secret_placeholder,
        &exit_hello,
        &vk,
        Some(&transport_secret),
    )
    .expect("client accepts");
    assert!(r.is_none());
}

#[test]
fn missing_transport_secret_is_refused() {
    let (client_hello, _) = client_start(true);
    let signing_sk = exit_signing_key();
    let exit_esk: Vec<u8> = (50u8..82).collect();
    let r = exit_respond(&client_hello, None, &exit_esk, &signing_sk);
    assert!(matches!(r, Err(HandshakeError::NoSharedSecret)));
}

#[test]
fn wrong_transport_secret_gives_bad_mac() {
    let transport_secret: Vec<u8> = (200u8..232).collect();
    let (client_hello, _) = client_start(true);
    let signing_sk = exit_signing_key();
    let exit_esk: Vec<u8> = (50u8..82).collect();
    let (exit_hello, _) =
        exit_respond(&client_hello, Some(&transport_secret), &exit_esk, &signing_sk)
            .expect("exit answers");
    let vk = exit_verifying_key(&signing_sk);
    let other_secret = vec![9u8; 32];
    let placeholder = vec![0u8; 32];
    let r = client_finish(&client_hello, &placeholder, &exit_hello, &vk, Some(&other_secret));
    assert!(matches!(r, Err(HandshakeError::BadMac)));
}

#[test]
fn mismatched_reply_is_refused() {
    // a client that offered x25519 must not accept a shared-secret response
    let (client_hello, client_secret) = client_start(false);
    let signing_sk = exit_signing_key();
    let vk = exit_verifying_key(&signing_sk);

    // forge a signed hello of the wrong kind (signed correctly, so only the
    // shape check can refuse it)
    let inner = ExitHelloInner::SharedSecretResponse(vec![1u8; 32]);
    let mut msg = client_hello.encode();
    let mut inner_bytes = vec![0u8];
    inner_bytes.extend_from_slice(&[1u8; 32]);
    msg.extend_from_slice(&inner_bytes);
    let arr: [u8; 32] = signing_sk.as_slice().try_into().unwrap();
    let signature = SigningKey::from_bytes(&arr).sign(&msg).to_bytes().to_vec();
    let forged = ExitHello { inner, signature };
    let r = client_finish(&client_hello, &client_secret, &forged, &vk, Some(&vec![2u8; 32]));
    assert!(matches!(r, Err(HandshakeError::WrongReply)));
}

#[test]
fn exit_signature_binds_client_hello() {
    // the same exit answer presented against a different client hello fails
    let (client_hello, client_secret) = client_start(false);
    let signing_sk = exit_signing_key();
    let exit_esk: Vec<u8> = (50u8..82).collect();
    let (exit_hello, _) =
        exit_respond(&client_hello, None, &exit_esk, &signing_sk).expect("exit answers");
    let vk = exit_verifying_key(&signing_sk);

    let other_hello = ClientHello { crypt_hello: ClientCryptHello::X25519(vec![3u8; 32]) };
    let r = client_finish(&other_hello, &client_secret, &exit_hello, &vk, None);
    assert!(matches!(r, Err(HandshakeError::BadSignature)));
}
