use geph5_core::directory::{decode_exit_list, encode_exit_list, ExitDescriptor, ExitEntry};
use geph5_core::handshake::{
    frame_message, read_frame, ClientCryptHello, ClientHello, ExitHello, ExitHelloInner,
};
use geph5_core::net::{Country, Endpoint, IpAddrBytes};
use geph5_core::route::RouteDescriptor;

fn v4(a: u8, b: u8, c: u8, d: u8, port: u16) -> Endpoint {
    Endpoint { ip: IpAddrBytes::V4(vec![a, b, c, d]), port }
}

fn sample_descriptor() -> ExitDescriptor {
    ExitDescriptor {
        c2e_listen: v4(10, 0, 0, 1, 9000),
        b2e_listen: Endpoint {
            ip: IpAddrBytes::V6(vec![0, 1, 2, 3, 4, 5, 6, 7, 8, 9, 10, 11, 12, 13, 14, 15]),
            port: 9001,
        },
        country: Country { a: b'U', b: b'S' },
        city: b"new york".to_vec(),
        load_millis: 250,
        expiry: 1_700_000_000,
    }
}

#[test]
fn exit_descriptor_round_trip() {
    let d = sample_descriptor();
    let bytes = d.encode();
    let back = ExitDescriptor::decode(&bytes).expect("decodes");
    assert_eq!(back, sample_descriptor());
}

#[test]
fn exit_descriptor_decode_rejects_truncation() {
    let d = sample_descriptor();
    let bytes = d.encode();
    assert!(ExitDescriptor::decode(&bytes[..bytes.len() - 1]).is_none());
}

#[test]
fn route_descriptor_round_trip() {
    let route = RouteDescriptor::Race(vec![
        RouteDescriptor::Tcp(v4(1, 2, 3, 4, 443)),
        RouteDescriptor::Sosistab3 {
            cookie: b"opaque cookie".to_vec(),
            lower: Box::new(RouteDescriptor::Fallback(vec![
                RouteDescriptor::Tcp(v4(5, 6, 7, 8, 80)),
                RouteDescriptor::Delay {
                    milliseconds: 250,
                    lower: Box::new(RouteDescriptor::Tcp(v4(9, 9, 9, 9, 80))),
                },
            ])),
        },
        RouteDescriptor::Timeout {
            milliseconds: 5000,
            lower: Box::new(RouteDescriptor::Other(b"future form".to_vec())),
        },
    ]);
    let bytes = route.encode();
    let (back, used) = RouteDescriptor::decode_from(&bytes, 0).expect("decodes");
    assert_eq!(used, bytes.len());
    assert_eq!(back, route);
}

#[test]
fn route_descriptor_empty_race_round_trip() {
    let route = RouteDescriptor::Race(vec![]);
    let bytes = route.encode();
    assert_eq!(RouteDescriptor::decode(&bytes), Some(RouteDescriptor::Race(vec![])));
}

#[test]
fn client_hello_round_trip() {
    for hello in [
        ClientHello { crypt_hello: ClientCryptHello::SharedSecretChallenge(vec![7u8; 32]) },
        ClientHello { crypt_hello: ClientCryptHello::X25519(vec![9u8; 32]) },
    ] {
        let bytes = hello.encode();
        let back = ClientHello::decode(&bytes).expect("decodes");
        assert_eq!(back, hello);
    }
}

#[test]
fn exit_hello_round_trip() {
    for hello in [
        ExitHello {
            inner: ExitHelloInner::SharedSecretResponse(vec![3u8; 32]),
            signature: vec![5u8; 64],
        },
        ExitHello { inner: ExitHelloInner::X25519(vec![4u8; 32]), signature: vec![6u8; 64] },
    ] {
        let bytes = hello.encode();
        let back = ExitHello::decode(&bytes).expect("decodes");
        assert_eq!(back, hello);
    }
}

#[test]
fn frame_round_trip_and_cap() {
    let payload = b"hello frame".to_vec();
    let framed = frame_message(&payload);
    let (back, used) = read_frame(&framed, 0).expect("reads");
    assert_eq!(back, payload);
    assert_eq!(used, framed.len());

    // an adversarial length over the cap is rejected before any allocation
    let huge = (u32::MAX).to_le_bytes().to_vec();
    assert!(read_frame(&huge, 0).is_none());
}

#[test]
fn exit_list_round_trip() {
    let entries = vec![
        ExitEntry { pubkey: vec![1u8; 32], descriptor: sample_descriptor() },
        ExitEntry {
            pubkey: vec![2u8; 32],
            descriptor: ExitDescriptor {
                c2e_listen: v4(172, 16, 0, 1, 7000),
                b2e_listen: v4(172, 16, 0, 1, 7001),
                country: Country { a: b'J', b: b'P' },
                city: b"tokyo".to_vec(),
                load_millis: 10,
                expiry: 42,
            },
        },
    ];
    let bytes = encode_exit_list(&entries);
    let back = decode_exit_list(&bytes).expect("decodes");
    assert_eq!(back, entries);
}
