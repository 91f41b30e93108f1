use geph5_core::directory::{encode_exit_list, ExitDescriptor, ExitEntry};
use geph5_core::envelope::{domain_exit_descriptor_bytes, SignedEnvelope};
use geph5_core::net::{ip_text, Country, Endpoint, IpAddrBytes};
use geph5_core::select::{
    choose_exit, open_exit_list, parse_direct_constraint, pick_resolved_addr, DirectParseError,
    ExitConstraint, ExitListError,
};

fn entry(country: [u8; 2], city: &[u8], load_millis: u64, last_octet: u8) -> ExitEntry {
    ExitEntry {
        pubkey: vec![last_octet; 32],
        descriptor: ExitDescriptor {
            c2e_listen: Endpoint { ip: IpAddrBytes::V4(vec![10, 0, 0, last_octet]), port: 9000 },
            b2e_listen: Endpoint { ip: IpAddrBytes::V4(vec![10, 0, 1, last_octet]), port: 9001 },
            country: Country { a: country[0], b: country[1] },
            city: city.to_vec(),
            load_millis,
            expiry: 0,
        },
    }
}

#[test]
fn country_filter_with_one_match() {
    // three exits, countries US, US, JP: a JP constraint picks the JP exit
    // no matter the loads
    let exits = vec![
        entry(*b"US", b"nyc", 1, 1),
        entry(*b"US", b"sf", 2, 2),
        entry(*b"JP", b"tokyo", 999, 3),
    ];
    let c = ExitConstraint::Country(Country { a: b'J', b: b'P' });
    assert_eq!(choose_exit(&exits, &c), Some(2));
}

#[test]
fn empty_filter_falls_back_to_min_load_overall() {
    // no JP exit: the filter is empty, so the lightest exit overall wins
    let exits = vec![entry(*b"US", b"nyc", 500, 1), entry(*b"DE", b"berlin", 100, 2)];
    let c = ExitConstraint::Country(Country { a: b'J', b: b'P' });
    assert_eq!(choose_exit(&exits, &c), Some(1));
}

#[test]
fn nonempty_list_always_yields_an_exit() {
    let exits = vec![entry(*b"US", b"nyc", 500, 1)];
    assert!(choose_exit(&exits, &ExitConstraint::Auto).is_some());
    let none: Vec<ExitEntry> = vec![];
    assert_eq!(choose_exit(&none, &ExitConstraint::Auto), None);
}

#[test]
fn auto_picks_first_minimum_load() {
    let exits = vec![
        entry(*b"US", b"a", 300, 1),
        entry(*b"DE", b"b", 100, 2),
        entry(*b"FR", b"c", 100, 3),
    ];
    // ties break to the earlier entry, deterministically
    assert_eq!(choose_exit(&exits, &ExitConstraint::Auto), Some(1));
}

#[test]
fn country_city_filter_needs_both() {
    let exits = vec![
        entry(*b"US", b"nyc", 1, 1),
        entry(*b"US", b"sf", 2, 2),
    ];
    let c = ExitConstraint::CountryCity(Country { a: b'U', b: b'S' }, b"sf".to_vec());
    assert_eq!(choose_exit(&exits, &c), Some(1));
}

#[test]
fn hostname_filter_matches_bridge_ip_text() {
    let exits = vec![entry(*b"US", b"nyc", 1, 7), entry(*b"US", b"sf", 0, 8)];
    // the textual form of the first exit's bridge-facing IP
    let text = ip_text(&IpAddrBytes::V4(vec![10, 0, 1, 7]));
    assert_eq!(text, b"10.0.1.7".to_vec());
    let c = ExitConstraint::Hostname(text);
    assert_eq!(choose_exit(&exits, &c), Some(0));
}

#[test]
fn direct_constraint_happy_path() {
    // a known 32-byte key, hex-encoded after the slash
    let key: Vec<u8> = (0u8..32).collect();
    let hex: String = key.iter().map(|b| format!("{:02x}", b)).collect();
    let s = format!("1.2.3.4:1000/{}", hex).into_bytes();
    let (host, pk) = parse_direct_constraint(&s).expect("parses");
    assert_eq!(host, b"1.2.3.4:1000".to_vec());
    assert_eq!(pk, key);
}

#[test]
fn direct_constraint_errors() {
    assert!(matches!(
        parse_direct_constraint(&b"no-slash-here".to_vec()),
        Err(DirectParseError::NoSlash)
    ));
    assert!(matches!(
        parse_direct_constraint(&b"host:1/zz!!".to_vec()),
        Err(DirectParseError::BadHex)
    ));
    assert!(matches!(
        parse_direct_constraint(&b"host:1/aabb".to_vec()),
        Err(DirectParseError::WrongKeyLength)
    ));
}

#[test]
fn pick_resolved_addr_bounds() {
    let none: Vec<Endpoint> = vec![];
    assert!(pick_resolved_addr(&none).is_none());
    let addrs = vec![
        Endpoint { ip: IpAddrBytes::V4(vec![1, 2, 3, 4]), port: 1000 },
        Endpoint { ip: IpAddrBytes::V4(vec![1, 2, 3, 5]), port: 1000 },
    ];
    let i = pick_resolved_addr(&addrs).expect("non-empty");
    assert!(i < addrs.len());
}

#[test]
fn ip_text_v6_form() {
    let text = ip_text(&IpAddrBytes::V6(vec![
        0x20, 0x01, 0x0d, 0xb8, 0, 0, 0, 0, 0, 0, 0, 0, 0, 0, 0, 1,
    ]));
    assert_eq!(text, b"2001:0db8:0000:0000:0000:0000:0000:0001".to_vec());
}

#[test]
fn open_exit_list_checks_signature_then_shape() {
    let exits = vec![entry(*b"US", b"nyc", 5, 1)];
    let payload = encode_exit_list(&exits);
    let sk: Vec<u8> = (40u8..72).collect();
    let domain = domain_exit_descriptor_bytes();
    let env = SignedEnvelope::seal(payload, &domain, &sk);

    let opened = open_exit_list(&env, None).expect("opens");
    assert_eq!(opened, exits);
    // the pinned key must name the signer
    let pin = env.pubkey.clone();
    assert!(open_exit_list(&env, Some(&pin)).is_ok());
    let mut wrong_pin = env.pubkey.clone();
    wrong_pin[3] ^= 1;
    assert_eq!(open_exit_list(&env, Some(&wrong_pin)), Err(ExitListError::BadSignature));

    // a well-signed envelope whose payload is not a directory is malformed
    let garbage = SignedEnvelope::seal(b"not a directory".to_vec(), &domain, &sk);
    assert_eq!(open_exit_list(&garbage, None), Err(ExitListError::Malformed));
}
